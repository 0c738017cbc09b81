use rdmatop::text::{device_count, fmt_mem_kb, mem_label, push_decimal, push_one_decimal, truncate};

#[test]
fn mem_kb_units() {
    assert_eq!(fmt_mem_kb(0), "0K");
    assert_eq!(fmt_mem_kb(512), "512K");
    assert_eq!(fmt_mem_kb(1023), "1023K");
    assert_eq!(fmt_mem_kb(1024), "1M");
    assert_eq!(fmt_mem_kb(300 * 1024), "300M");
    assert_eq!(fmt_mem_kb(1_048_575), "1024M");
    assert_eq!(fmt_mem_kb(1_048_576), "1.0G");
    assert_eq!(fmt_mem_kb(1_572_864), "1.5G");
}

#[test]
fn mem_kb_ties_round_to_even() {
    assert_eq!(fmt_mem_kb(1536), "2M");
    assert_eq!(fmt_mem_kb(2560), "2M");
    assert_eq!(fmt_mem_kb(3584), "4M");
    assert_eq!(fmt_mem_kb(1_310_720), "1.2G");
    assert_eq!(fmt_mem_kb(1_415_578), format!("{:.1}G", 1_415_578f64 / 1_048_576.0));
}

fn float_mem_kb(kb: u64) -> String {
    if kb >= 1_048_576 {
        format!("{:.1}G", kb as f64 / 1_048_576.0)
    } else if kb >= 1024 {
        format!("{:.0}M", kb as f64 / 1024.0)
    } else {
        format!("{}K", kb)
    }
}

#[test]
fn mem_kb_agrees_with_float_formatting() {
    let mut kb: u64 = 1;
    let mut step: u64 = 1;
    while kb < u64::MAX / 3 {
        for delta in [0u64, 1, 511, 512, 513, 52_428, 52_429, 104_857] {
            let v = kb.saturating_add(delta);
            assert_eq!(fmt_mem_kb(v), float_mem_kb(v), "kb = {}", v);
        }
        kb = kb.saturating_add(step);
        step = step.saturating_mul(3) / 2 + 7;
    }
    for v in [u64::MAX, u64::MAX - 1, (1u64 << 53) + 1, (1u64 << 53) + 3, (1u64 << 60) + (1 << 7)] {
        assert_eq!(fmt_mem_kb(v), float_mem_kb(v), "kb = {}", v);
    }
}

#[test]
fn mem_label_both_units() {
    assert_eq!(mem_label(300, 900), "300/900M]");
    assert_eq!(mem_label(3276, 15872), "3.2/15.5G]");
    assert_eq!(mem_label(0, 1024), "0.0/1.0G]");
    assert_eq!(mem_label(256, 2048), "0.2/2.0G]");
    for (u, t) in [(1234u64, 64_000u64), (77, 4096), (u64::MAX, u64::MAX)] {
        let expected = format!("{:.1}/{:.1}G]", u as f64 / 1024.0, t as f64 / 1024.0);
        assert_eq!(mem_label(u, t), expected);
    }
}

#[test]
fn one_decimal_and_decimal() {
    let mut s = String::from(">");
    push_decimal(&mut s, 0);
    push_decimal(&mut s, 1_234_567_890);
    assert_eq!(s, ">01234567890");
    let mut t = String::new();
    push_one_decimal(&mut t, 1536, 1024);
    assert_eq!(t, "1.5");
}

#[test]
fn device_count_plural() {
    assert_eq!(device_count(1), " RDMA: 1 device");
    assert_eq!(device_count(0), " RDMA: 0 devices");
    assert_eq!(device_count(12), " RDMA: 12 devices");
}

#[test]
fn truncate_keeps_short_strings() {
    assert_eq!(truncate("root", 8), "root");
    assert_eq!(truncate("12345678", 8), "12345678");
    assert_eq!(truncate("", 0), "");
}

#[test]
fn truncate_cuts_with_ellipsis() {
    assert_eq!(truncate("postgresql", 8), "postgre…");
    assert_eq!(truncate("abc", 1), "…");
    let long = "python3 -m torch.distributed.run --nproc_per_node 8 train.py";
    let cut = truncate(long, 40);
    assert_eq!(cut, format!("{}…", &long[..39]));
    assert_eq!(cut.chars().count(), 40);
}

#[test]
fn truncate_on_multibyte_boundary() {
    // "é" is two bytes: the first 3 bytes are "aé"
    assert_eq!(truncate("aébcdef", 4), "aé…");
}

#[test]
fn truncating_twice_changes_nothing() {
    for (s, max) in [("postgresql", 8usize), ("aébcdef", 4), ("root", 8), ("abc", 1), ("…xyz", 4)] {
        let once = truncate(s, max);
        assert_eq!(truncate(&once, max), once);
    }
}
