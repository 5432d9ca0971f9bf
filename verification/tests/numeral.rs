//! Which words are numbers.

use obj2smd::numeral::Numeral;

fn is_numeral(word: &str) -> bool {
    Numeral::parse(word).is_some()
}

#[test]
fn plain_numbers_are_numerals() {
    for word in ["0", "7", "42", "0.5", "1.000000", "-1.0", "+3.25", "007", "5.", ".5", "-.5", "+5."]
    {
        assert!(is_numeral(word), "{:?}", word);
    }
}

#[test]
fn numbers_with_exponents_are_numerals() {
    for word in ["1e5", "1E5", "1e+5", "1e-5", "-2.5e10", ".5e1", "5.e1", "1e0005", "0e0"] {
        assert!(is_numeral(word), "{:?}", word);
    }
}

#[test]
fn infinity_and_not_a_number_are_numerals_in_any_case() {
    for word in [
        "inf", "INF", "Inf", "iNf", "+inf", "-inf", "infinity", "Infinity", "INFINITY",
        "-InFiNiTy", "nan", "NaN", "NAN", "-nan", "+NaN",
    ] {
        assert!(is_numeral(word), "{:?}", word);
        assert!(word.parse::<f64>().is_ok(), "{:?}", word);
    }
}

#[test]
fn other_words_are_no_numerals() {
    for word in [
        "", "+", "-", ".", "+.", "-.", "e", "e5", ".e5", "1e", "1e+", "1e-", "1e5.", "1.2.3",
        "--1", "+-1", "1-", "1+", "0x10", "1_000", "1,5", "1f", "1.0f", "abc", "in", "infi",
        "infinit", "infinityy", "na", "nane", "i", "n", " 1", "1 ", "1 2", "\u{661}", "\u{ff11}",
        "1\u{2e}\u{661}", "ınf", "\u{130}nf", "ıNF", "\u{212a}", "1e\u{661}",
    ] {
        assert!(!is_numeral(word), "{:?}", word);
        assert!(word.parse::<f64>().is_err(), "{:?}", word);
    }
}

#[test]
fn a_numeral_keeps_its_text() {
    for word in ["0", "-1.250000", "+1e-3", "NaN", "0.0000"] {
        let n = Numeral::parse(word).unwrap();
        assert_eq!(word, n.as_str());
        assert_eq!(word, n.clone().as_str());
    }
    assert_eq!("0", Numeral::zero().as_str());
}

/// Every word of up to `length` characters of `alphabet`.
fn words(alphabet: &[char], length: usize) -> Vec<String> {
    let mut all: Vec<String> = vec![String::new()];
    let mut from = 0;
    for _ in 0..length {
        let upto = all.len();
        for k in from..upto {
            for c in alphabet {
                let mut longer = all[k].clone();
                longer.push(*c);
                all.push(longer);
            }
        }
        from = upto;
    }
    all
}

#[test]
fn the_numerals_are_the_words_that_parse_as_floating_point_numbers() {
    let mut count = 0;
    for word in words(&['0', '7', '+', '-', '.', 'e', 'E', 'n', 'x'], 6) {
        assert_eq!(word.parse::<f64>().is_ok(), is_numeral(&word), "{:?}", word);
        count += 1;
    }
    assert!(count > 500_000);
}

#[test]
fn the_special_numerals_are_those_of_floating_point_numbers() {
    for word in words(&['i', 'n', 'f', 'a', 'N', 'I', '-'], 5) {
        assert_eq!(word.parse::<f64>().is_ok(), is_numeral(&word), "{:?}", word);
    }
    for word in words(&['i', 'n', 'f', 't', 'y', 'Y', 'T'], 3) {
        for head in ["infin", "INFIN", "+infi", "-Infin", "infinit", "infinity"] {
            let long = format!("{}{}", head, word);
            assert_eq!(long.parse::<f64>().is_ok(), is_numeral(&long), "{:?}", long);
        }
    }
}

#[test]
fn a_number_written_to_four_places_is_a_numeral() {
    let values = [
        0.0,
        -0.0,
        1.0,
        -1.5,
        0.00005,
        123456.789,
        1e300,
        -1e-300,
        f64::MAX,
        f64::MIN_POSITIVE,
        f64::INFINITY,
        f64::NEG_INFINITY,
        f64::NAN,
    ];
    for value in values {
        let text = format!("{:.4}", value);
        assert!(is_numeral(&text), "{:?}", text);
    }
}
