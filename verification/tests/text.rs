use zhtw_mcp::text::{
    bytes_in, chars_of, comes_before, contains_part, ends_with, is_white_space, joined,
    parse_index, push_decimal, push_hex, split_at_char, split_lines, starts_with, string_of,
    stripped_end, stripped_start, to_lower, trimmed, trimmed_end, trimmed_start,
};

const SAMPLES: [&str; 14] = [
    "",
    " ",
    "a",
    "  a b\t\n",
    "\u{3000}全形\u{3000}",
    "\u{85}\u{a0}x\u{2028}",
    "a\r\nb\n\nc\r",
    "\n",
    "x\n",
    "\r\n\r\n",
    "```json\n{}\n```",
    "Ünïcode",
    "a.b.c",
    "zz",
];

fn lines_of(s: &str) -> Vec<String> {
    split_lines(&chars_of(s)).iter().map(|l| string_of(l)).collect()
}

#[test]
fn white_space_is_what_unicode_calls_white_space() {
    for c in '\0'..=char::MAX {
        assert_eq!(is_white_space(c), c.is_whitespace(), "{:?}", c);
    }
}

#[test]
fn trimming_agrees_with_std() {
    for s in SAMPLES {
        let cs = chars_of(s);
        assert_eq!(string_of(trimmed(&cs)), s.trim());
        assert_eq!(string_of(trimmed_start(&cs)), s.trim_start());
        assert_eq!(string_of(trimmed_end(&cs)), s.trim_end());
    }
}

#[test]
fn lines_agree_with_std() {
    for s in SAMPLES {
        let expected: Vec<String> = s.lines().map(|l| l.to_owned()).collect();
        assert_eq!(lines_of(s), expected, "{s:?}");
    }
}

#[test]
fn lines_come_back_as_they_were_written() {
    let lines = ["one", "", "three"];
    let text: String = lines.iter().map(|l| format!("{l}\n")).collect();
    assert_eq!(lines_of(&text), lines);
}

#[test]
fn splitting_agrees_with_std() {
    for s in SAMPLES {
        let expected: Vec<String> = s.split('\n').map(|l| l.to_owned()).collect();
        let got: Vec<String> = split_at_char(&chars_of(s), '\n')
            .iter()
            .map(|l| string_of(l))
            .collect();
        assert_eq!(got, expected, "{s:?}");
    }
}

#[test]
fn parts_and_order_agree_with_std() {
    for a in SAMPLES {
        for b in SAMPLES {
            let (x, y) = (chars_of(a), chars_of(b));
            assert_eq!(contains_part(&x, &y), a.contains(b), "{a:?} {b:?}");
            assert_eq!(starts_with(&x, &y), a.starts_with(b), "{a:?} {b:?}");
            assert_eq!(ends_with(&x, &y), a.ends_with(b), "{a:?} {b:?}");
            assert_eq!(comes_before(&x, &y), a < b, "{a:?} {b:?}");
        }
    }
}

#[test]
fn stripping_takes_every_copy() {
    let strip = |s: &str, part: &str| {
        (
            string_of(stripped_start(&chars_of(s), &chars_of(part))),
            string_of(stripped_end(&chars_of(s), &chars_of(part))),
        )
    };
    for s in ["``````x```", "```", "x", "", "`````"] {
        let (start, end) = strip(s, "```");
        assert_eq!(start, s.trim_start_matches("```"));
        assert_eq!(end, s.trim_end_matches("```"));
    }
}

#[test]
fn numbers_are_written_as_std_writes_them() {
    for n in [0, 9, 10, 99, 100, 4096, usize::MAX] {
        let mut s = "n=".to_owned();
        push_decimal(&mut s, n);
        assert_eq!(s, format!("n={n}"));
    }
    for n in [0, 15, 16, 0xabc, u64::MAX, 0x0123_4567_89ab_cdef] {
        let mut s = String::new();
        push_hex(&mut s, n, 12);
        assert_eq!(s, format!("{:012x}", n & 0xFFFF_FFFF_FFFF));
    }
}

#[test]
fn places_are_read_as_std_reads_them() {
    for s in [
        "", "0", "7", "007", "+7", "+", "++7", "-0", "-1", " 1", "1 ", "1a", "٣",
        "18446744073709551615", "18446744073709551616", "000000000000000000000000042",
        "99999999999999999999999", "99999999999999999999999x",
    ] {
        assert_eq!(parse_index(&chars_of(s)), s.parse::<usize>().ok(), "{s:?}");
    }
}

#[test]
fn bytes_and_joins_agree_with_std() {
    for s in SAMPLES {
        assert_eq!(bytes_in(s), s.len());
    }
    assert_eq!(bytes_in("é漢😀"), 9);
    let owned = |list: &[&str]| list.iter().map(|s| s.to_string()).collect::<Vec<String>>();
    for list in [vec![], vec!["a"], vec!["a", "b"], vec!["", "", "c"]] {
        assert_eq!(joined(&owned(&list), ", "), list.join(", "));
    }
}

#[test]
fn only_ascii_letters_are_lowered() {
    assert_eq!(string_of(&to_lower(&chars_of("AZaz09ÄÉ"))), "azaz09ÄÉ");
}
