use chatbot::text::{chars_of, split_once_at, string_of, trim_bounds};

fn trimmed(x: &str) -> String {
    let cs = chars_of(x);
    let (lo, hi) = trim_bounds(&cs);
    string_of(&cs, lo, hi)
}

#[test]
fn trimming_matches_str_trim() {
    let mut samples: Vec<String> = vec![
        "".to_string(),
        "   ".to_string(),
        " a b ".to_string(),
        "\n/new\n".to_string(),
        "\u{3000}x\u{85}".to_string(),
        "\u{200B}x\u{200B}".to_string(),
        "\u{feff}y".to_string(),
    ];
    for c in 0u32..0x3100 {
        if let Some(ch) = char::from_u32(c) {
            samples.push(format!("{ch}a{ch}"));
        }
    }
    for x in samples {
        assert_eq!(trimmed(&x), x.trim(), "{:?}", x);
    }
}

#[test]
fn splitting_matches_str_split_once() {
    for (x, pat) in [("a b c", " "), ("abc", " "), (" x", " "), ("x ", " "), ("a--$$__b--$$__c", "--$$__"),
                     ("--$--$$__", "--$$__"), ("é ü", " "), ("", " ")] {
        let cs = chars_of(x);
        let ps = chars_of(pat);
        let got = split_once_at(&cs, &ps);
        let want = x.split_once(pat).map(|(a, b)| (a.to_string(), b.to_string()));
        assert_eq!(got, want, "{x:?}");
    }
}
