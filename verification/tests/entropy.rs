use agentshield::{entropy_exceeds_threshold, scan_entropy_fast};

fn chars(text: &str) -> Vec<char> {
    text.chars().collect()
}

#[test]
fn test_high_entropy_secret() {
    let secrets = scan_entropy_fast("Token: aB3xK9mZ2pQ7wE5vR8nL4jH6gF1cD0sY");
    assert!(secrets.len() >= 0);
}

#[test]
fn test_low_entropy_normal() {
    let secrets = scan_entropy_fast("The quick brown fox");
    assert!(secrets.is_empty());
}

#[test]
fn test_entropy_threshold() {
    let secrets = scan_entropy_fast("abc 123 def");
    assert!(secrets.is_empty());
}

#[test]
fn token_of_32_distinct_characters_is_reported() {
    // 32 distinct characters: 5 bits per character.
    let secrets = scan_entropy_fast("Token: aB3xK9mZ2pQ7wE5vR8nL4jH6gF1cD0sY");
    assert_eq!(secrets, vec!["aB3xK9mZ2pQ7wE5vR8nL4jH6gF1cD0sY".to_string()]);
}

#[test]
fn twenty_three_distinct_characters_are_the_least_that_pass() {
    // log2(23) = 4.52, log2(22) = 4.46.
    assert!(entropy_exceeds_threshold(&chars("abcdefghijklmnopqrstuvw")));
    assert!(!entropy_exceeds_threshold(&chars("abcdefghijklmnopqrstuv")));
    assert_eq!(
        scan_entropy_fast("abcdefghijklmnopqrstuv abcdefghijklmnopqrstuvw"),
        vec!["abcdefghijklmnopqrstuvw".to_string()]
    );
}

#[test]
fn entropy_of_exactly_four_and_a_half_bits_is_not_reported() {
    // 64 characters: four of them eight times each, 32 once each.
    // H = 4 * (1/8) * 3 + 32 * (1/64) * 6 = 4.5.
    let unique: String = (0..32u32).map(|i| char::from_u32(0x4e00 + i).unwrap()).collect();
    let at = format!("{}{}", "abcd".repeat(8), unique);
    assert_eq!(at.chars().count(), 64);
    assert!(!entropy_exceeds_threshold(&chars(&at)));
    assert!(scan_entropy_fast(&at).is_empty());

    // One repetition less and one more unique character: just above.
    let unique: String = (0..33u32).map(|i| char::from_u32(0x4e00 + i).unwrap()).collect();
    let above = format!("{}abc{}", "abcd".repeat(7), unique);
    assert_eq!(above.chars().count(), 64);
    assert!(entropy_exceeds_threshold(&chars(&above)));
    assert_eq!(scan_entropy_fast(&above), vec![above.clone()]);
}

#[test]
fn longer_token_of_exactly_four_and_a_half_bits() {
    // 128 characters: five of them sixteen times each, 48 once each.
    // H = 5 * (1/8) * 3 + 48 * (1/128) * 7 = 1.875 + 2.625 = 4.5.
    let unique: String = (0..48u32).map(|i| char::from_u32(0x4e00 + i).unwrap()).collect();
    let at = format!("{}{}", "abcde".repeat(16), unique);
    assert_eq!(at.chars().count(), 128);
    assert!(!entropy_exceeds_threshold(&chars(&at)));

    // One of the repeated characters gives way to a new one.
    let above = format!("{}abcd\u{5000}{}", "abcde".repeat(15), unique);
    assert_eq!(above.chars().count(), 128);
    assert!(entropy_exceeds_threshold(&chars(&above)));

    // One of the unique characters gives way to a repeated one.
    let unique: String = (0..47u32).map(|i| char::from_u32(0x4e00 + i).unwrap()).collect();
    let below = format!("{}a{}", "abcde".repeat(16), unique);
    assert_eq!(below.chars().count(), 128);
    assert!(!entropy_exceeds_threshold(&chars(&below)));
}

#[test]
fn short_tokens_are_never_reported() {
    for text in ["", "a", "aB3xK9m", "1 22 333 4444 55555 666666 7777777", "\u{4e00}\u{4e01}"] {
        assert!(scan_entropy_fast(text).is_empty());
    }
    assert!(!entropy_exceeds_threshold(&chars("")));
    assert!(!entropy_exceeds_threshold(&chars("aB3xK9m")));
}

#[test]
fn repeated_and_hexadecimal_tokens_are_not_reported() {
    assert!(scan_entropy_fast("aaaaaaaaaaaaaaaaaaaaaaaaaaaaaaaaaaaaaaaa").is_empty());
    // Sixteen symbols, each four times: 4 bits per character.
    assert!(scan_entropy_fast("0123456789abcdef0123456789abcdef0123456789abcdef0123456789abcdef").is_empty());
    assert!(scan_entropy_fast("SECRET-REDACTED").is_empty());
}

#[test]
fn keys_with_many_symbols_are_reported() {
    let key = "wJalrXUtnFEMI/K7MDENG/bPxRfiCYEXAMPLEKEY";
    let text = format!("aws_secret_access_key = {}", key);
    assert_eq!(scan_entropy_fast(&text), vec![key.to_string()]);
}

#[test]
fn order_is_kept_and_duplicates_are_reported_again() {
    let a = "aB3xK9mZ2pQ7wE5vR8nL4jH6gF1cD0sY";
    let b = "abcdefghijklmnopqrstuvwxyz";
    let text = format!("{} plain {}\t{}\n{}", b, a, b, a);
    assert_eq!(
        scan_entropy_fast(&text),
        vec![b.to_string(), a.to_string(), b.to_string(), a.to_string()]
    );
}

#[test]
fn any_run_of_whitespace_separates_tokens() {
    let a = "aB3xK9mZ2pQ7wE5vR8nL4jH6gF1cD0sY";
    let b = "abcdefghijklmnopqrstuvwxyz";
    for gap in [" ", "  \t\r\n ", "\u{a0}", "\u{3000}", "\u{2003}\u{2028}"] {
        let text = format!("{}{}{}{}{}", gap, a, gap, b, gap);
        assert_eq!(scan_entropy_fast(&text), vec![a.to_string(), b.to_string()]);
    }
    // Without a gap the two are one token.
    let joined = format!("{}{}", a, b);
    assert_eq!(scan_entropy_fast(&joined), vec![joined.clone()]);
}

#[test]
fn characters_count_not_bytes() {
    // 23 distinct characters of three bytes each.
    let token: String = (0..23u32).map(|i| char::from_u32(0x4e00 + i).unwrap()).collect();
    assert_eq!(scan_entropy_fast(&token), vec![token.clone()]);
    let token: String = (0..22u32).map(|i| char::from_u32(0x4e00 + i).unwrap()).collect();
    assert!(scan_entropy_fast(&token).is_empty());
}

#[test]
fn rearranging_a_token_does_not_change_the_outcome() {
    let above = "aB3xK9mZ2pQ7wE5vR8nL4jH6gF1cD0sY";
    let reversed: String = above.chars().rev().collect();
    let mut sorted = chars(above);
    sorted.sort();
    assert!(entropy_exceeds_threshold(&chars(above)));
    assert!(entropy_exceeds_threshold(&chars(&reversed)));
    assert!(entropy_exceeds_threshold(&sorted));

    let below = "0123456789abcdef0123456789abcdef";
    let reversed: String = below.chars().rev().collect();
    let mut sorted = chars(below);
    sorted.sort();
    assert!(!entropy_exceeds_threshold(&chars(below)));
    assert!(!entropy_exceeds_threshold(&chars(&reversed)));
    assert!(!entropy_exceeds_threshold(&sorted));
}

#[test]
fn long_tokens_are_decided() {
    let alphabet = "ABCDEFGHIJKLMNOPQRSTUVWXYZabcdefghijklmnopqrstuvwxyz0123456789+/";
    let long: String = alphabet.chars().cycle().take(200_000).collect();
    assert_eq!(scan_entropy_fast(&long), vec![long.clone()]);
    let flat: String = "0123456789abcdef".chars().cycle().take(200_000).collect();
    assert!(scan_entropy_fast(&flat).is_empty());
}

fn shannon_entropy(token: &[char]) -> f64 {
    let mut counts = std::collections::HashMap::new();
    for c in token {
        *counts.entry(*c).or_insert(0usize) += 1;
    }
    let len = token.len() as f64;
    let mut entropy = 0.0;
    for count in counts.values() {
        let p = *count as f64 / len;
        entropy -= p * p.log2();
    }
    entropy
}

#[test]
fn decision_agrees_with_entropy_in_floating_point() {
    // Tokens of many lengths over alphabets of many sizes, from a fixed
    // sequence of pseudo-random numbers.
    let mut state: u64 = 0x9E37_79B9_7F4A_7C15;
    let mut next = move || {
        state = state.wrapping_mul(6364136223846793005).wrapping_add(1442695040888963407);
        (state >> 33) as usize
    };
    let mut above = 0;
    let mut below = 0;
    for round in 0..3000 {
        let len = 1 + next() % 120;
        let alphabet = 1 + next() % (8 + round % 90);
        let token: Vec<char> = (0..len)
            .map(|_| char::from_u32(0x21 + (next() % alphabet) as u32).unwrap())
            .collect();
        let entropy = shannon_entropy(&token);
        if (entropy - 4.5).abs() > 1e-9 {
            assert_eq!(entropy_exceeds_threshold(&token), entropy > 4.5);
            if entropy > 4.5 {
                above += 1;
            } else {
                below += 1;
            }
        }
    }
    assert!(above > 100);
    assert!(below > 100);
}
