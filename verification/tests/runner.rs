//! Command line, selection and report.

use vhost_blk_conformance::checks::{TestErr, TR};
use vhost_blk_conformance::cli::{
    either_holds, name_or_cat, parse, select, settle, Given, ParsedOf, Settings,
};
use vhost_blk_conformance::registry::all;
use vhost_blk_conformance::report::{banner, listing, outcome_line, section, Tally};
use vhost_blk_conformance::words::{
    contains, find_char, keep_token, parse_or_zero, split_tokens, strip, trim,
};

fn args(a: &[&str]) -> Vec<String> {
    a.iter().map(|s| s.to_string()).collect()
}

fn given(a: &[&str]) -> Given {
    match parse(&args(a)) {
        ParsedOf::Run(g) => g,
        _ => panic!("not a run"),
    }
}

fn settled(a: &[&str]) -> Settings {
    match settle(given(a), None, None, None) {
        Some(s) => s,
        None => panic!("no socket"),
    }
}

fn chosen(a: &[&str]) -> Vec<&'static str> {
    let s = settled(a);
    select(&all(), &s.filter, &s.skip).iter().map(|t| t.0).collect()
}

// ---- arguments ---------------------------------------------------------------------------

#[test]
fn flags_take_the_next_argument_or_their_own_value() {
    let g = given(&["/run/d0.sock", "--skip", "hostile", "-d=300", "--only=flush"]);
    assert_eq!(g.positionals, args(&["/run/d0.sock"]));
    assert_eq!((g.skip.as_str(), g.delay.as_str(), g.filter.as_str()), ("hostile", "300", "flush"));
    assert!(!g.list);
    let g = given(&["-s", "a", "-s", "b", "-o", "x", "--filter", "y", "--delay", "5"]);
    assert_eq!((g.skip.as_str(), g.filter.as_str(), g.delay.as_str()), ("b", "y", "5"));
    let g = given(&["--skip"]);
    assert_eq!(g.skip, "");
    let g = given(&["--skip", "--delay"]);
    assert_eq!((g.skip.as_str(), g.delay.as_str()), ("--delay", ""));
    let g = given(&["--only=a=b"]);
    assert_eq!(g.filter, "a=b");
}

#[test]
fn list_and_help() {
    assert!(given(&["list"]).list);
    assert!(given(&["--list"]).list);
    assert!(given(&["sock", "list=x"]).list);
    assert!(matches!(parse(&args(&["-h"])), ParsedOf::Help));
    assert!(matches!(parse(&args(&["sock", "--help=1"])), ParsedOf::Help));
    assert!(matches!(parse(&args(&["-h", "--bogus"])), ParsedOf::Help));
}

#[test]
fn unknown_flags_are_named() {
    match parse(&args(&["sock", "--bogus=7", "-h"])) {
        ParsedOf::Unknown(f) => assert_eq!(f, "--bogus"),
        _ => panic!("known"),
    }
    match parse(&args(&["-"])) {
        ParsedOf::Unknown(f) => assert_eq!(f, "-"),
        _ => panic!("known"),
    }
}

#[test]
fn positional_arguments_keep_their_equals_sign() {
    let g = given(&["a=b", "", "c"]);
    assert_eq!(g.positionals, args(&["a=b", "", "c"]));
}

#[test]
fn flag_before_position_before_environment() {
    let env = |s: &str| Some(s.to_string());
    let s = settle(given(&["s1", "Filter"]), env("s2"), env("E1"), env("9")).unwrap();
    assert_eq!((s.sock.as_str(), s.filter.as_str()), ("s1", "filter"));
    assert_eq!(s.skip, args(&["e1"]));
    assert_eq!(s.delay_ms, 9);
    let s = settle(
        given(&["s1", "pos", "-o", "FLAG", "-s", "B , ,C", "-d", "12"]),
        env("s2"),
        env("E1"),
        env("9"),
    )
    .unwrap();
    assert_eq!(s.filter, "flag");
    assert_eq!(s.skip, args(&["b", "c"]));
    assert_eq!(s.delay_ms, 12);
    let s = settle(given(&["-o", "x"]), env("s2"), None, None).unwrap();
    assert_eq!((s.sock.as_str(), s.filter.as_str()), ("s2", "x"));
    assert!(s.skip.is_empty());
    assert_eq!(s.delay_ms, 0);
}

#[test]
fn socket_is_needed() {
    assert!(settle(given(&[]), None, None, None).is_none());
    assert!(settle(given(&[]), Some(String::new()), None, None).is_none());
    assert!(settle(given(&[""]), Some("env".to_string()), None, None).is_none());
}

// ---- words ----------------------------------------------------------------------------------

#[test]
fn delays() {
    for (s, n) in [
        ("300", 300u64),
        ("+7", 7),
        ("0", 0),
        ("007", 7),
        ("", 0),
        ("+", 0),
        ("-1", 0),
        ("1.5", 0),
        (" 5", 0),
        ("5ms", 0),
        ("++5", 0),
        ("18446744073709551615", u64::MAX),
        ("18446744073709551616", 0),
        ("99999999999999999999999", 0),
    ] {
        assert_eq!(parse_or_zero(s), n);
        assert_eq!(n, s.parse::<u64>().unwrap_or(0));
    }
}

#[test]
fn tokens() {
    assert_eq!(split_tokens("hostile,large-request"), args(&["hostile", "large-request"]));
    assert_eq!(split_tokens(" A ,, b\t,"), args(&["a", "b"]));
    assert_eq!(split_tokens("\u{2003}Ё\u{a0},ПриВет"), args(&["ё", "привет"]));
    assert!(split_tokens("").is_empty());
    assert!(split_tokens(" , ").is_empty());
    let mut v = args(&["a"]);
    keep_token(&mut v, String::new());
    keep_token(&mut v, "b".to_string());
    assert_eq!(v, args(&["a", "b"]));
}

#[test]
fn white_space_is_trimmed() {
    for s in ["", " ", "a", "  a b  ", "\ta\n", "\u{3000}x\u{85}", "\u{200b}y "] {
        assert_eq!(trim(s), s.trim());
    }
}

#[test]
fn white_space_is_what_is_listed() {
    let listed = |n: u32| {
        matches!(
            n,
            0x9..=0xd
                | 0x20
                | 0x85
                | 0xa0
                | 0x1680
                | 0x2000..=0x200a
                | 0x2028
                | 0x2029
                | 0x202f
                | 0x205f
                | 0x3000
        )
    };
    for n in 0..=0x10_ffffu32 {
        if let Some(c) = char::from_u32(n) {
            assert_eq!(trim(&c.to_string()).is_empty(), listed(n), "{:x}", n);
        }
    }
}

#[test]
fn marked_ends_are_stripped() {
    assert_eq!(strip("abcd", &vec![true, false, true, true]), "b");
    assert_eq!(strip("abcd", &vec![false, true, true, false]), "abcd");
    assert_eq!(strip("abc", &vec![true, true, true]), "");
    assert_eq!(strip("", &Vec::new()), "");
}

#[test]
fn texts_in_texts() {
    assert!(contains("scatter-write", "write"));
    assert!(contains("scatter-write", ""));
    assert!(contains("", ""));
    assert!(!contains("", "a"));
    assert!(!contains("abc", "abd"));
    assert!(contains("aaab", "aab"));
    assert!(contains("привет", "иве"));
    assert_eq!(find_char("a=b=c", '='), Some(1));
    assert_eq!(find_char("é=", '='), Some(1));
    assert_eq!(find_char("abc", '='), None);
}

#[test]
fn names_and_categories_in_any_case() {
    assert!(name_or_cat("Scatter-Write", "DESCRIPTORS", "scatter"));
    assert!(name_or_cat("Scatter-Write", "DESCRIPTORS", "descr"));
    assert!(name_or_cat("Scatter-Write", "DESCRIPTORS", "Scatter"));
    assert!(name_or_cat("flush", "req-types", "FLUSH"));
    assert!(name_or_cat("flush", "req-types", "Req-T"));
    assert!(!name_or_cat("flush", "req-types", "DISCARD"));
    assert!(!name_or_cat("flush", "req-types", "discard"));
    assert!(name_or_cat("ÀÉ", "x", "àé"));
    assert!(either_holds("abc", "xyz", "yz"));
    assert!(!either_holds("ABC", "xyz", "abc"));
}

// ---- selection -------------------------------------------------------------------------------

#[test]
fn everything_is_selected_by_default() {
    assert_eq!(chosen(&["s"]).len(), 69);
}

#[test]
fn filter_and_skip() {
    assert_eq!(chosen(&["s", "scatter"]), vec!["scatter-write-8x512", "scatter-read-8x512"]);
    assert_eq!(chosen(&["s", "--only", "VQ-mechanics"]).len(), 7);
    assert_eq!(
        chosen(&["s", "smoke", "--skip", "read-sector"]),
        vec!["handshake"]
    );
    let rest = chosen(&["s", "req-types", "--skip", "discard", "--delay", "300"]);
    assert_eq!(
        rest,
        vec![
            "flush",
            "flush-nonzero-sector",
            "get-id",
            "write-zeroes",
            "write-zeroes-unmap",
            "unsupported-request-type",
            "zero-length-read",
            "non-multiple-length"
        ]
    );
    let without = chosen(&["s", "--skip", "hostile"]);
    assert_eq!(without.len(), 62);
    assert!(!without.contains(&"vring-num-zero"));
    assert!(chosen(&["s", "no such scenario"]).is_empty());
}

#[test]
fn skip_comes_after_the_filter() {
    let s = settled(&["s", "write", "--skip", "zeroes,scatter"]);
    let first = select(&all(), &s.filter, &Vec::new());
    let both = select(&first, "", &s.skip);
    let once = select(&all(), &s.filter, &s.skip);
    let names = |v: &Vec<vhost_blk_conformance::registry::Test>| -> Vec<&'static str> {
        v.iter().map(|t| t.0).collect()
    };
    assert_eq!(names(&both), names(&once));
}

#[test]
fn table_of_scenarios() {
    let t = all();
    assert_eq!(t.len(), 69);
    assert_eq!((t[0].0, t[0].1), ("handshake", "smoke"));
    assert_eq!((t[68].0, t[68].1), ("vring-before-mem-table", "hostile"));
    for i in 0..t.len() {
        for j in 0..i {
            assert_ne!(t[i].0, t[j].0);
            assert!(t[i].2 != t[j].2);
        }
    }
}

// ---- report ----------------------------------------------------------------------------------

#[test]
fn list_of_scenarios() {
    let lines = listing(&all());
    assert_eq!(
        lines[0..5].to_vec(),
        args(&["\n[smoke]", "  handshake", "  read-sector-0", "\n[integrity]", "  roundtrip"])
    );
    assert_eq!(lines.len(), 69 + 12);
}

#[test]
fn lines_before_the_scenarios() {
    assert_eq!(
        banner("/run/d0.sock", "", &Vec::new(), 69),
        args(&[
            "vhost-user-blk conformance (rust-vmm Frontend)",
            "socket: /run/d0.sock",
            "tests:  69\n"
        ])
    );
    assert_eq!(
        banner("s", "flush", &args(&["a", "b", "c"]), 0),
        args(&[
            "vhost-user-blk conformance (rust-vmm Frontend)",
            "socket: s",
            "filter: flush",
            "skip:   a, b, c",
            "tests:  0\n"
        ])
    );
    assert_eq!(section("", "smoke"), Some("\n== smoke ==".to_string()));
    assert_eq!(section("smoke", "smoke"), None);
}

#[test]
fn lines_of_scenarios() {
    let pass: TR = Ok(());
    let fail: TR = Err(TestErr::Fail("why".to_string()));
    let skip: TR = Err(TestErr::Skip("no".to_string()));
    assert_eq!(outcome_line("n", &pass), "  \x1b[32mPASS\x1b[0m  n");
    assert_eq!(outcome_line("n", &fail), "  \x1b[31mFAIL\x1b[0m  n — why");
    assert_eq!(outcome_line("n", &skip), "  \x1b[33mSKIP\x1b[0m  n — no");
}

#[test]
fn tally_and_exit_code() {
    let mut t = Tally::new();
    assert_eq!(t.exit_code(), 0);
    t.record("a", &Ok(()));
    t.record("b", &Err(TestErr::Skip("no".to_string())));
    assert_eq!(t.exit_code(), 0);
    assert_eq!(t.summary().len(), 2);
    t.record("c", &Err(TestErr::Fail("why".to_string())));
    t.record("d", &Err(TestErr::Fail("also".to_string())));
    assert_eq!((t.pass, t.fail, t.skip), (1, 2, 1));
    assert_eq!(t.exit_code(), 1);
    assert_eq!(
        t.summary(),
        args(&[
            "\n----------------------------------------",
            "PASS 1   \x1b[31mFAIL 2\x1b[0m   \x1b[33mSKIP 1\x1b[0m",
            "\nПровалы (кандидаты в баги реализации):",
            "  - c: why",
            "  - d: also"
        ])
    );
}
