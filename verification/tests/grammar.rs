use json_validator::{validate, UTF8Reader};

// A recognizer for JSON written straight from the grammar, code point by code point, to
// hold the validator against.

const LIMIT: usize = 100;

fn ws(s: &[char], mut i: usize) -> usize {
    while i < s.len() && matches!(s[i], ' ' | '\t' | '\n' | '\r') {
        i += 1;
    }
    i
}

fn digits(s: &[char], mut i: usize) -> Option<usize> {
    let start = i;
    while i < s.len() && s[i].is_ascii_digit() {
        i += 1;
    }
    if i > start {
        Some(i)
    } else {
        None
    }
}

fn number(s: &[char], mut i: usize) -> Option<usize> {
    if i < s.len() && s[i] == '-' {
        i += 1;
    }
    if i < s.len() && s[i] == '0' {
        i += 1;
    } else if i < s.len() && matches!(s[i], '1'..='9') {
        i = digits(s, i)?;
    } else {
        return None;
    }
    if i < s.len() && s[i] == '.' {
        i = digits(s, i + 1)?;
    }
    if i < s.len() && matches!(s[i], 'e' | 'E') {
        i += 1;
        if i < s.len() && matches!(s[i], '+' | '-') {
            i += 1;
        }
        i = digits(s, i)?;
    }
    Some(i)
}

fn string(s: &[char], mut i: usize) -> Option<usize> {
    if i >= s.len() || s[i] != '"' {
        return None;
    }
    i += 1;
    loop {
        if i >= s.len() {
            return None;
        }
        match s[i] {
            '"' => return Some(i + 1),
            '\\' => {
                i += 1;
                if i >= s.len() {
                    return None;
                }
                match s[i] {
                    '"' | '\\' | '/' | 'b' | 'f' | 'n' | 'r' | 't' => i += 1,
                    'u' => {
                        for k in 1..=4 {
                            if i + k >= s.len() || !s[i + k].is_ascii_hexdigit() {
                                return None;
                            }
                        }
                        i += 5;
                    }
                    _ => return None,
                }
            }
            c if c <= '\u{1f}' => return None,
            _ => i += 1,
        }
    }
}

fn word(s: &[char], i: usize, name: &str) -> Option<usize> {
    let letters: Vec<char> = name.chars().collect();
    if i + letters.len() <= s.len() && s[i..i + letters.len()] == letters[..] {
        Some(i + letters.len())
    } else {
        None
    }
}

fn value(s: &[char], i: usize, depth: usize) -> Option<usize> {
    if i >= s.len() {
        return None;
    }
    match s[i] {
        '{' => {
            if depth == 0 {
                return None;
            }
            let mut i = ws(s, i + 1);
            if i < s.len() && s[i] == '}' {
                return Some(i + 1);
            }
            loop {
                i = string(s, ws(s, i))?;
                i = ws(s, i);
                if i >= s.len() || s[i] != ':' {
                    return None;
                }
                i = element(s, i + 1, depth - 1)?;
                if i < s.len() && s[i] == '}' {
                    return Some(i + 1);
                }
                if i >= s.len() || s[i] != ',' {
                    return None;
                }
                i += 1;
            }
        }
        '[' => {
            if depth == 0 {
                return None;
            }
            let mut i = ws(s, i + 1);
            if i < s.len() && s[i] == ']' {
                return Some(i + 1);
            }
            loop {
                i = element(s, i, depth - 1)?;
                if i < s.len() && s[i] == ']' {
                    return Some(i + 1);
                }
                if i >= s.len() || s[i] != ',' {
                    return None;
                }
                i += 1;
            }
        }
        '"' => string(s, i),
        't' => word(s, i, "true"),
        'f' => word(s, i, "false"),
        'n' => word(s, i, "null"),
        _ => number(s, i),
    }
}

fn element(s: &[char], i: usize, depth: usize) -> Option<usize> {
    let i = value(s, ws(s, i), depth)?;
    Some(ws(s, i))
}

fn is_json(text: &str) -> bool {
    let s: Vec<char> = text.chars().collect();
    element(&s, 0, LIMIT) == Some(s.len())
}

fn accepts(text: &str) -> bool {
    validate(&UTF8Reader::new(text)).is_ok()
}

fn compare_all(alphabet: &[&str], longest: usize) -> usize {
    let mut count = 0;
    let mut words: Vec<String> = vec![String::new()];
    for _ in 0..=longest {
        let mut longer = Vec::new();
        for w in &words {
            assert_eq!(accepts(w), is_json(w), "on {:?}", w);
            count += 1;
            for a in alphabet {
                longer.push(format!("{}{}", w, a));
            }
        }
        words = longer;
    }
    count
}

#[test]
fn recognizer_knows_json() {
    for text in ["1", " [1, 2.5e3, \"a\\n\", true, false, null, {\"k\": {}}] ", "\"\\u00e9\""] {
        assert!(is_json(text), "{:?}", text);
    }
    for text in ["", "01", "1.", "[1,]", "{\"a\":1,}", "\"\\u00\"", "tru", "[1 2]", "\"\n\""] {
        assert!(!is_json(text), "{:?}", text);
    }
}

#[test]
fn validator_agrees_with_the_grammar_on_numbers() {
    let count = compare_all(&["0", "1", "9", "-", "+", ".", "e", "E", " ", ","], 5);
    assert_eq!(count, 111_111);
}

#[test]
fn validator_agrees_with_the_grammar_on_arrays() {
    let count = compare_all(&["[", "]", ",", " ", "1", "0", "\"", "n"], 6);
    assert_eq!(count, 299_593);
}

#[test]
fn validator_agrees_with_the_grammar_on_objects() {
    let count = compare_all(&["{", "}", ":", ",", "\"", "a", "1", " "], 6);
    assert_eq!(count, 299_593);
}

#[test]
fn validator_agrees_with_the_grammar_on_strings() {
    let count = compare_all(&["\"", "\\", "u", "n", "0", "A", "f", "x", "\n", "é"], 5);
    assert_eq!(count, 111_111);
    // A string in front, so that every word is read as the inside of a string.
    let mut words: Vec<String> = vec![String::new()];
    for _ in 0..=6 {
        let mut longer = Vec::new();
        for w in &words {
            let text = format!("\"{}\"", w);
            assert_eq!(accepts(&text), is_json(&text), "on {:?}", text);
            for a in ["\\", "u", "0", "f", "\"", "\u{1f}", "/"] {
                longer.push(format!("{}{}", w, a));
            }
        }
        words = longer;
    }
}

#[test]
fn validator_agrees_with_the_grammar_on_literal_names() {
    let count = compare_all(&["t", "r", "u", "e", "f", "a", "l", "s", "n", " "], 5);
    assert_eq!(count, 111_111);
}

#[test]
fn validator_agrees_with_the_grammar_on_mixed_documents() {
    let count = compare_all(
        &["[", "]", "{", "}", ":", ",", "\"", "1", "-", "true", "null", " ", "\\", "a"],
        4,
    );
    assert_eq!(count, 41_371);
}

#[test]
fn validator_agrees_with_the_grammar_on_nesting_at_the_limit() {
    for depth in [1, 2, 50, 99, 100, 101, 102, 150] {
        let arrays = format!("{}{}", "[".repeat(depth), "]".repeat(depth));
        assert_eq!(accepts(&arrays), depth <= LIMIT);
        assert_eq!(accepts(&arrays), is_json(&arrays));
        let objects = format!("{}0{}", "{\"\":".repeat(depth), "}".repeat(depth));
        assert_eq!(accepts(&objects), depth <= LIMIT);
        assert_eq!(accepts(&objects), is_json(&objects));
        let mixed = format!("{}1{}", "[{\"a\":".repeat(depth), "}]".repeat(depth));
        assert_eq!(accepts(&mixed), 2 * depth <= LIMIT);
        assert_eq!(accepts(&mixed), is_json(&mixed));
    }
}

#[test]
fn clusters_of_several_code_points_are_where_validator_and_grammar_part() {
    // Accepted by both: the cluster stands inside a string and holds nothing of the grammar.
    for text in ["\"e\u{301}\"", "[\"\u{1F1E9}\u{1F1EA}\"]", "{\"k\u{308}\": 1}"] {
        assert!(accepts(text) && is_json(text), "{:?}", text);
    }
    // Rejected though the code points are a JSON text: the cluster takes a token with it.
    for text in ["[1,\r\n2]", "\"\\n\u{301}\"", "\"a\"\r\n", "{\"a\":\"b\u{301}\"\u{200d}}"] {
        assert!(is_json(text) || text.ends_with('}'), "{:?}", text);
        assert!(!accepts(text), "{:?}", text);
    }
    // Accepted though the code points are no JSON text: the closing quote is taken for
    // a part of a cluster, and a later quote closes the string.
    let text = "\"a\"\u{301}\"";
    assert!(!is_json(text));
    assert!(accepts(text));
}
