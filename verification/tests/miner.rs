use tari_common::configuration::Network;
use tari_common_types::tari_address::TariAddress;
use tari_common_types::types::CompressedPublicKey;
use tari_crypto::tari_utilities::hex::Hex;
use tari_gpu_miner::address::{dev_fee_address_hex, payout_address, payout_address_hex, MinerError};
use tari_gpu_miner::coinbase::{missing_coinbase_part, missing_part_message, payment_script, CoinbasePart, PaymentScript};
use tari_gpu_miner::bytes::{copy_u64_to_u8, copy_u8_to_u64};
use tari_gpu_miner::kernel::{
    kernel_input, nonce_window_start, target_from_difficulty, INPUT_PADDING_WORD, KERNEL_ITERATIONS,
};
use tari_gpu_miner::report::status_line;
use tari_gpu_miner::schedule::{next_round, pays_dev_fee};
use tari_gpu_miner::search::{read_mine_output, record_batch, refresh_due, start_search, BatchOutcome};
use tari_gpu_miner::template::{benchmark_work, node_kind, prepare_job, NodeKind, TemplateWork};

fn valid_address_hex() -> String {
    let key =
        CompressedPublicKey::from_hex("d09dfde45e45456b7a8935fecfc0ebea431548d105d2f098a488820526395a61").unwrap();
    TariAddress::new_single_address_with_interactive_only(key, Network::MainNet)
        .unwrap()
        .to_hex()
}

#[test]
fn full_words_are_read_little_endian() {
    assert_eq!(copy_u8_to_u64(vec![1, 2, 3, 4, 5, 6, 7, 8]), vec![0x0807060504030201]);
    assert_eq!(
        copy_u8_to_u64(vec![0xff; 16]),
        vec![u64::MAX, u64::MAX]
    );
}

#[test]
fn leftover_bytes_are_read_big_endian() {
    assert_eq!(copy_u8_to_u64(vec![1, 2, 3]), vec![0x010203]);
    assert_eq!(
        copy_u8_to_u64(vec![1, 2, 3, 4, 5, 6, 7, 8, 9, 10]),
        vec![0x0807060504030201, 0x090a]
    );
}

#[test]
fn no_bytes_give_no_words() {
    assert_eq!(copy_u8_to_u64(vec![]), Vec::<u64>::new());
    assert_eq!(copy_u64_to_u8(vec![]), Vec::<u8>::new());
}

#[test]
fn words_are_written_little_endian() {
    assert_eq!(
        copy_u64_to_u8(vec![0x0102030405060708, 0xff]),
        vec![8, 7, 6, 5, 4, 3, 2, 1, 0xff, 0, 0, 0, 0, 0, 0, 0]
    );
}

#[test]
fn words_survive_unpacking_and_packing() {
    let words = vec![0, 1, u64::MAX, 0x0123456789abcdef];
    assert_eq!(copy_u8_to_u64(copy_u64_to_u8(words.clone())), words);
}

#[test]
fn bytes_in_full_words_survive_packing_and_unpacking() {
    let bytes: Vec<u8> = (0u8..24).map(|b| b.wrapping_mul(37)).collect();
    assert_eq!(copy_u64_to_u8(copy_u8_to_u64(bytes.clone())), bytes);
}

#[test]
fn leftover_bytes_do_not_survive_packing_and_unpacking() {
    assert_eq!(copy_u64_to_u8(copy_u8_to_u64(vec![1, 2])), vec![2, 1, 0, 0, 0, 0, 0, 0]);
}

#[test]
fn kernel_input_holds_hash_between_nonce_slot_and_padding() {
    let hash: Vec<u8> = (1u8..=32).collect();
    let data = kernel_input(hash.clone());
    assert_eq!(data.len(), 6);
    assert_eq!(data[0], 0);
    assert_eq!(data[1], 0x0807060504030201);
    assert_eq!(data[4], 0x201f1e1d1c1b1a19);
    assert_eq!(data[5], INPUT_PADDING_WORD);
    assert_eq!(INPUT_PADDING_WORD, u64::from_le_bytes([1, 0x06, 0, 0, 0, 0, 0, 0]));
    assert_eq!(copy_u64_to_u8(data[1..5].to_vec()), hash);
}

#[test]
fn nonce_windows_split_the_nonce_space() {
    assert_eq!(nonce_window_start(1, 0), 0);
    assert_eq!(nonce_window_start(4, 1), u64::MAX / 4);
    assert_eq!(nonce_window_start(4, 3), (u64::MAX / 4) * 3);
    assert!(nonce_window_start(4, 2) + u64::MAX / 4 <= nonce_window_start(4, 3));
}

#[test]
fn target_is_max_over_difficulty() {
    assert_eq!(target_from_difficulty(1), u64::MAX);
    assert_eq!(target_from_difficulty(2), u64::MAX / 2);
    assert_eq!(target_from_difficulty(u64::MAX), 1);
    assert!(target_from_difficulty(1000) <= target_from_difficulty(999));
}

#[test]
fn round_counter_wraps_after_101() {
    assert_eq!(next_round(0), 1);
    assert_eq!(next_round(100), 101);
    assert_eq!(next_round(101), 0);
    let mut r = 0;
    for _ in 0..102 {
        r = next_round(r);
    }
    assert_eq!(r, 0);
}

#[test]
fn two_of_every_102_templates_pay_the_dev_fee() {
    let mut r = 0;
    let mut dev = 0;
    for _ in 0..1020 {
        r = next_round(r);
        if pays_dev_fee(r) {
            dev += 1;
        }
    }
    assert_eq!(dev, 20);
    assert!(pays_dev_fee(0));
    assert!(pays_dev_fee(99));
    assert!(!pays_dev_fee(98));
}

#[test]
fn payout_hex_follows_the_round() {
    assert_eq!(payout_address_hex(99, "abc"), dev_fee_address_hex());
    assert_eq!(payout_address_hex(0, "abc"), dev_fee_address_hex());
    assert_eq!(payout_address_hex(1, "abc"), "abc");
    assert_eq!(
        dev_fee_address_hex(),
        "8c98d40f216589d8b385015222b95fb5327fee334352c7c30370101b0c6d124fd6"
    );
}

#[test]
fn configured_address_parses_on_ordinary_rounds() {
    let hex = valid_address_hex();
    let address = payout_address(1, &hex).ok().expect("valid address");
    assert_eq!(address.to_hex(), hex);
    assert_eq!(address, TariAddress::from_hex(&hex).unwrap());
}

#[test]
fn invalid_address_is_an_error() {
    assert!(matches!(payout_address(1, "zz"), Err(MinerError::InvalidAddress(_))));
    assert!(matches!(payout_address(1, ""), Err(MinerError::InvalidAddress(_))));
}

#[test]
fn dev_fee_round_parses_the_dev_fee_address() {
    let hex = valid_address_hex();
    for round in [0u32, 99] {
        let direct = TariAddress::from_hex(dev_fee_address_hex());
        match (payout_address(round, &hex), direct) {
            (Ok(a), Ok(b)) => assert_eq!(a, b),
            (Err(MinerError::InvalidAddress(e)), Err(f)) => assert_eq!(e, f),
            _ => panic!("payout address differs from parsing the dev fee address"),
        }
    }
}

#[test]
fn invalid_configured_address_carries_the_parse_error() {
    for bad in ["zz", "", "abc", "0123"] {
        match payout_address(1, bad) {
            Err(MinerError::InvalidAddress(e)) => assert_eq!(Err(e), TariAddress::from_hex(bad).map(|_| ())),
            Ok(_) => panic!("invalid address accepted"),
        }
    }
}

#[test]
fn status_line_groups_large_numbers() {
    assert_eq!(
        status_line(1_234_567, 23, 1000, 999, 2),
        "total 1,234,567 grid: 23 max_diff: 1,000, target: 999 hashes/sec: 617,283"
    );
    assert_eq!(
        status_line(0, 1234, 0, u64::MAX, 5),
        "total 0 grid: 1234 max_diff: 0, target: 18,446,744,073,709,551,615 hashes/sec: 0"
    );
}

#[test]
fn mine_output_reports_nonce_when_first_word_is_set() {
    let found = read_mine_output(&vec![42, 0, 0, 0, 0], 10, 256, KERNEL_ITERATIONS);
    assert_eq!(found.nonce, Some(42));
    assert_eq!(found.hashes, 10 * 256 * 4);
    assert_eq!(found.diff, 0);
    let none = read_mine_output(&vec![0, 7, 7, 7, 7], 10, 256, KERNEL_ITERATIONS);
    assert_eq!(none.nonce, None);
    assert_eq!(none.hashes, 10240);
}

#[test]
fn search_starts_at_window_start() {
    let s = start_search(2, 1);
    assert_eq!(s.nonce_start, u64::MAX / 2);
    assert_eq!(s.max_diff, 0);
    assert_eq!(s.last_hash_rate, 0);
}

#[test]
fn refresh_is_due_strictly_after_the_interval() {
    assert!(!refresh_due(30, 30));
    assert!(refresh_due(31, 30));
}

#[test]
fn batches_advance_nonce_and_keep_best_difficulty() {
    let mut s = start_search(1, 0);
    let d = record_batch(&mut s, &BatchOutcome { nonce: None, hashes: 100, diff: 5 }, 0, 0, 10, 1000);
    assert_eq!(s.nonce_start, 100);
    assert_eq!(s.max_diff, 5);
    assert!(d.submit_nonce.is_none());
    assert!(d.report.is_none());
    let d = record_batch(&mut s, &BatchOutcome { nonce: None, hashes: 100, diff: 3 }, 1, 5_000_000_000, 10, 1000);
    assert_eq!(s.nonce_start, 200);
    assert_eq!(s.max_diff, 5);
    assert_eq!(s.last_hash_rate, 0);
    assert!(d.report.is_none());
}

#[test]
fn status_is_reported_after_two_seconds() {
    let mut s = start_search(1, 0);
    let d = record_batch(&mut s, &BatchOutcome { nonce: None, hashes: 3000, diff: 0 }, 2, 2_000_000_000, 10, 7);
    assert!(d.report.is_none());
    assert_eq!(s.last_hash_rate, 1500);
    let d = record_batch(&mut s, &BatchOutcome { nonce: None, hashes: 3000, diff: 0 }, 3, 2_000_000_001, 10, 7);
    assert_eq!(
        d.report.unwrap(),
        "total 6,000 grid: 10 max_diff: 0, target: 7 hashes/sec: 2,000"
    );
    assert_eq!(s.last_hash_rate, 2000);
}

#[test]
fn found_nonce_is_submitted() {
    let mut s = start_search(1, 0);
    let d = record_batch(&mut s, &BatchOutcome { nonce: Some(77), hashes: 1, diff: 0 }, 0, 0, 1, 1);
    assert_eq!(d.submit_nonce, Some(77));
}

#[test]
fn benchmark_work_has_largest_difficulty_and_zero_hash() {
    let w = benchmark_work();
    assert_eq!(w.target_difficulty, u64::MAX);
    assert_eq!(w.mining_hash, vec![0u8; 32]);
    let job = prepare_job(w);
    assert_eq!(job.target, 1);
    assert_eq!(job.data, vec![0, 0, 0, 0, 0, INPUT_PADDING_WORD]);
}

#[test]
fn job_for_template_uses_its_difficulty() {
    let job = prepare_job(TemplateWork { target_difficulty: 4, mining_hash: vec![0xff; 32] });
    assert_eq!(job.target, u64::MAX / 4);
    assert_eq!(job.data, vec![0, u64::MAX, u64::MAX, u64::MAX, u64::MAX, INPUT_PADDING_WORD]);
}

#[test]
fn stealth_flag_picks_the_payment_script() {
    assert_eq!(payment_script(true), PaymentScript::Stealth);
    assert_eq!(payment_script(false), PaymentScript::OneSided);
}

#[test]
fn missing_output_is_reported_before_missing_kernel() {
    assert_eq!(missing_coinbase_part(0, 0), Some(CoinbasePart::Output));
    assert_eq!(missing_coinbase_part(1, 0), Some(CoinbasePart::Kernel));
    assert_eq!(missing_coinbase_part(1, 1), None);
    assert_eq!(missing_part_message(CoinbasePart::Output), "No output found");
    assert_eq!(missing_part_message(CoinbasePart::Kernel), "No kernel found");
}

#[test]
fn benchmark_mode_uses_no_node() {
    assert_eq!(node_kind(true), NodeKind::Benchmark);
    assert_eq!(node_kind(false), NodeKind::BaseNode);
}
