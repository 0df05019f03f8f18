use balancebeam::commands::{parse_break_target, parse_decimal, parse_hex, BreakTarget,
    DebuggerCommand};
use balancebeam::diff::{diff_lines, lcs, DiffLine, Grid};
use balancebeam::gather::scatter;
use balancebeam::hangman::{index, to_string};
use balancebeam::memword::{align_addr_to_word, splice_byte};
use balancebeam::warmup::{add_n, add_n_inplace, dedup};
use balancebeam::wc::{counter_bytes, counter_lines, counter_words};

#[test]
fn test_add_n() {
    assert_eq!(add_n(vec![1], 2), vec![3]);
}

#[test]
fn test_add_n_inplace() {
    let mut v = vec![1];
    add_n_inplace(&mut v, 2);
    assert_eq!(v, vec![3]);
}

#[test]
fn test_dedup() {
    let mut v = vec![3, 1, 0, 1, 4, 4];
    dedup(&mut v);
    assert_eq!(v, vec![3, 1, 0, 4]);

    let mut v_no_dep = vec![1, 2, 3, 4, 5];
    dedup(&mut v_no_dep);
    assert_eq!(v_no_dep, vec![1, 2, 3, 4, 5]);
}

#[test]
fn test_dedup_empty() {
    let mut v: Vec<i32> = Vec::new();
    dedup(&mut v);
    assert_eq!(v, Vec::<i32>::new());
}

#[test]
fn test_lcs() {
    let mut expected = Grid::new(5, 4);
    expected.set(1, 1, 1).unwrap();
    expected.set(1, 2, 1).unwrap();
    expected.set(1, 3, 1).unwrap();
    expected.set(2, 1, 1).unwrap();
    expected.set(2, 2, 1).unwrap();
    expected.set(2, 3, 2).unwrap();
    expected.set(3, 1, 1).unwrap();
    expected.set(3, 2, 1).unwrap();
    expected.set(3, 3, 2).unwrap();
    expected.set(4, 1, 1).unwrap();
    expected.set(4, 2, 2).unwrap();
    expected.set(4, 3, 2).unwrap();

    println!("Expected:");
    let result = lcs(
        &"abcd".chars().map(|c| c.to_string()).collect(),
        &"adb".chars().map(|c| c.to_string()).collect(),
    );
    println!("Got:");
    assert_eq!(result.size(), expected.size());
    for row in 0..expected.size().0 {
        for col in 0..expected.size().1 {
            assert_eq!(result.get(row, col), expected.get(row, col));
        }
    }
}

#[test]
fn test_grid_out_of_bounds() {
    let mut g = Grid::new(2, 2);
    assert!(g.set(2, 0, 5).is_err());
    assert_eq!(g.get(2, 0), None);
    assert_eq!(g.get(0, 2), None);
    assert_eq!(g.get(1, 1), Some(0));
}

#[test]
fn test_diff_lines() {
    let lines1: Vec<String> = vec!["a".to_string(), "b".to_string(), "c".to_string()];
    let lines2: Vec<String> = vec!["a".to_string(), "c".to_string()];
    let table = lcs(&lines1, &lines2);
    let d = diff_lines(&table, &lines1, &lines2, lines1.len(), lines2.len());
    assert_eq!(d.len(), 4);
    assert!(matches!(&d[0], DiffLine::Blank));
    assert!(matches!(&d[1], DiffLine::Same(s) if s == "a"));
    assert!(matches!(&d[2], DiffLine::Removed(s) if s == "b"));
    assert!(matches!(&d[3], DiffLine::Same(s) if s == "c"));
}

#[test]
fn test_counter_lines() {
    let lines: Vec<String> = vec!["one".to_string(), "two".to_string()];
    assert_eq!(counter_lines(&lines), 2);
}

#[test]
fn test_counter_words() {
    let lines: Vec<String> = vec!["ab cd".to_string(), "x".to_string(), "".to_string()];
    // Two words, one word, and one empty segment.
    assert_eq!(counter_words(&lines), 4);
}

#[test]
fn test_counter_bytes() {
    let lines: Vec<String> = vec!["ab cd".to_string(), "x".to_string()];
    // 5 + 1 bytes of text, plus one per line break.
    assert_eq!(counter_bytes(&lines), 8);
}

#[test]
fn test_counter_bytes_multibyte() {
    let lines: Vec<String> = vec!["é".to_string()];
    // Two UTF-8 bytes plus the line break.
    assert_eq!(counter_bytes(&lines), 3);
}

#[test]
fn test_from_tokens_words() {
    assert!(matches!(DebuggerCommand::from_tokens(&vec!["q"]), Some(DebuggerCommand::Quit)));
    assert!(matches!(DebuggerCommand::from_tokens(&vec!["quit"]), Some(DebuggerCommand::Quit)));
    assert!(matches!(DebuggerCommand::from_tokens(&vec!["c"]), Some(DebuggerCommand::Continue)));
    assert!(matches!(DebuggerCommand::from_tokens(&vec!["cont"]), Some(DebuggerCommand::Continue)));
    assert!(matches!(DebuggerCommand::from_tokens(&vec!["continue"]), Some(DebuggerCommand::Continue)));
    assert!(matches!(DebuggerCommand::from_tokens(&vec!["bt"]), Some(DebuggerCommand::Backtrace)));
    assert!(matches!(DebuggerCommand::from_tokens(&vec!["back"]), Some(DebuggerCommand::Backtrace)));
    assert!(matches!(DebuggerCommand::from_tokens(&vec!["backtrace"]), Some(DebuggerCommand::Backtrace)));
    assert!(DebuggerCommand::from_tokens(&vec!["step"]).is_none());
}

#[test]
fn test_from_tokens_run_args() {
    match DebuggerCommand::from_tokens(&vec!["r", "prog", "arg1"]) {
        Some(DebuggerCommand::Run(args)) => {
            assert_eq!(args, vec!["prog".to_string(), "arg1".to_string()]);
        }
        _ => panic!("expected a run command"),
    }
}

#[test]
fn test_from_tokens_break() {
    match DebuggerCommand::from_tokens(&vec!["b", "0x40011e"]) {
        Some(DebuggerCommand::Break(addr)) => assert_eq!(addr, "0x40011e"),
        _ => panic!("expected a break command"),
    }
}

#[test]
fn test_parse_hex_values() {
    assert_eq!(parse_hex("1a"), Some(26));
    assert_eq!(parse_hex("FF"), Some(255));
    assert_eq!(parse_hex("0"), Some(0));
    assert_eq!(parse_hex(""), None);
    assert_eq!(parse_hex("zz"), None);
    assert_eq!(parse_hex("123456789012345678901234567890"), None);
}

#[test]
fn test_parse_decimal_values() {
    assert_eq!(parse_decimal("42"), Some(42));
    assert_eq!(parse_decimal("0"), Some(0));
    assert_eq!(parse_decimal(""), None);
    assert_eq!(parse_decimal("4x"), None);
    assert_eq!(parse_decimal("99999999999999999999999999999999"), None);
}

#[test]
fn test_parse_break_target_forms() {
    assert!(matches!(parse_break_target("0x1a"), BreakTarget::Raw(Some(26))));
    assert!(matches!(parse_break_target("*0xFF"), BreakTarget::Raw(Some(255))));
    assert!(matches!(parse_break_target("0xzz"), BreakTarget::Raw(None)));
    assert!(matches!(parse_break_target("137"), BreakTarget::Line(137)));
    assert!(matches!(parse_break_target("main"), BreakTarget::Symbol(s) if s == "main"));
}

#[test]
fn test_align_addr_to_word() {
    assert_eq!(align_addr_to_word(13), 8);
    assert_eq!(align_addr_to_word(16), 16);
    assert_eq!(align_addr_to_word(0), 0);
}

#[test]
fn test_splice_byte() {
    let (updated, orig) = splice_byte(0x1122334455667788, 1, 0xcc);
    assert_eq!(orig, 0x77);
    assert_eq!(updated, 0x112233445566cc88);
    let (restored, trap) = splice_byte(updated, 1, orig);
    assert_eq!(trap, 0xcc);
    assert_eq!(restored, 0x1122334455667788);
}

#[test]
fn test_hangman_to_string() {
    assert_eq!(to_string(&vec!['a', 'b']), "ab");
    assert_eq!(to_string(&Vec::new()), "");
}

#[test]
fn test_hangman_index() {
    let word: Vec<char> = vec!['h', 'e', 'l', 'l', 'o'];
    let mut used: Vec<usize> = Vec::new();
    assert_eq!(index(&word, 'l', &mut used), (true, 2));
    assert_eq!(index(&word, 'l', &mut used), (true, 3));
    assert_eq!(index(&word, 'l', &mut used), (false, 5));
    assert_eq!(index(&word, 'z', &mut used), (false, 5));
    assert_eq!(used, vec![2, 3]);
}

#[test]
fn test_scatter_orders_results() {
    let pairs: Vec<(usize, char)> = vec![(1, 'b'), (0, 'a'), (2, 'c')];
    assert_eq!(scatter(pairs, 3), Some(vec!['a', 'b', 'c']));
}

#[test]
fn test_scatter_missing_slot() {
    let pairs: Vec<(usize, char)> = vec![(0, 'a'), (2, 'c')];
    assert_eq!(scatter(pairs, 3), None);
}

#[test]
fn test_scatter_last_write_wins() {
    let pairs: Vec<(usize, u32)> = vec![(0, 1), (0, 2)];
    assert_eq!(scatter(pairs, 1), Some(vec![2]));
}
