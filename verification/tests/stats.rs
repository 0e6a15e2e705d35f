use game_debug::stats::{fmt_int, short_hash};

#[test]
fn fmt_int_groups_thousands() {
    assert_eq!(fmt_int(0), "0");
    assert_eq!(fmt_int(12), "12");
    assert_eq!(fmt_int(642), "642");
    assert_eq!(fmt_int(40962), "40,962");
    assert_eq!(fmt_int(655362), "655,362");
}

#[test]
fn fmt_int_pads_inner_groups() {
    assert_eq!(fmt_int(1000), "1,000");
    assert_eq!(fmt_int(1_000_001), "1,000,001");
    assert_eq!(fmt_int(999), "999");
    assert_eq!(fmt_int(100_050), "100,050");
    assert_eq!(fmt_int(usize::MAX), {
        let digits = usize::MAX.to_string();
        let mut out = String::new();
        for (i, c) in digits.chars().enumerate() {
            if i > 0 && (digits.len() - i) % 3 == 0 {
                out.push(',');
            }
            out.push(c);
        }
        out
    });
}

#[test]
fn short_hash_is_016x_prefix() {
    for hash in [0u64, 1, 11_459_543_604_394_007_386, u64::MAX] {
        let short = short_hash(hash);
        assert_eq!(short.len(), 8, "{hash}");
        assert_eq!(short, &format!("{hash:016x}")[..8], "{hash}");
    }
}

#[test]
fn short_hash_reads_high_half() {
    assert_eq!(short_hash(0x0123_4567_89ab_cdef), "01234567");
    assert_eq!(short_hash(0xfedc_ba98_0000_0000), "fedcba98");
    assert_eq!(short_hash(0x0000_0000_ffff_ffff), "00000000");
}
