use hail_mary::text::{chars_of, parse_u32, split_by, split_lines};

fn texts(v: Vec<Vec<char>>) -> Vec<String> {
    v.into_iter().map(|c| c.into_iter().collect()).collect()
}

#[test]
fn split_matches_str_split() {
    for (s, d) in [("a,b,,c", ","), ("abc", ""), ("", ","), ("x::y::", "::"), ("", "")] {
        let expected: Vec<String> = s.split(d).map(|p| p.to_string()).collect();
        assert_eq!(texts(split_by(&chars_of(s), &chars_of(d))), expected, "{:?} {:?}", s, d);
    }
}

#[test]
fn lines_match_str_lines() {
    for s in ["a\nb", "a\r\nb\r\n", "\n", "", "x\r", "a\n\nb\n"] {
        let expected: Vec<String> = s.lines().map(|p| p.to_string()).collect();
        assert_eq!(texts(split_lines(&chars_of(s))), expected, "{:?}", s);
    }
}

#[test]
fn u32_parsing_matches_std() {
    for s in ["0", "+7", "4294967295", "4294967296", "", "+", "-1", "12a", " 1"] {
        assert_eq!(parse_u32(&chars_of(s)), s.parse::<u32>().ok(), "{:?}", s);
    }
}
