//! The text patterns, compared with the regular expressions they stand for
//! on many generated texts.

use regex::Regex;
use wse_trader::ranked_companies::RankedCompanies;

const ALPHABET: [char; 26] = [
    '>', '<', '/', 's', 'p', 'a', 'n', 'd', 'i', 'v', '(', ')', 'A', 'B', 'D', 'E', 'Z', '0', '1',
    '9', '+', '-', '.', '%', '\n', 'x',
];

const SNIPPETS: [&str; 8] = ["</span>", "</div>", ">", "(", ")", "AB", "12", "%"];

struct Lcg(u64);

impl Lcg {
    fn next(&mut self) -> u64 {
        self.0 = self.0.wrapping_mul(6364136223846793005).wrapping_add(1442695040888963407);
        self.0 >> 33
    }
}

fn texts() -> Vec<String> {
    let mut rng = Lcg(12345);
    let mut out = Vec::new();
    for _ in 0..6000 {
        let len = (rng.next() % 24) as usize;
        let mut s = String::new();
        while s.chars().count() < len {
            if rng.next() % 4 == 0 {
                s.push_str(SNIPPETS[(rng.next() % SNIPPETS.len() as u64) as usize]);
            } else {
                s.push(ALPHABET[(rng.next() % ALPHABET.len() as u64) as usize]);
            }
        }
        out.push(s);
    }
    out
}

fn first_group(re: &Regex, text: &str) -> Option<String> {
    re.captures(text).and_then(|c| c.get(1)).map(|m| m.as_str().to_string())
}

fn compare(pattern: &str, found: fn(String) -> Option<String>) {
    let re = Regex::new(pattern).unwrap();
    for text in texts() {
        assert_eq!(first_group(&re, &text), found(text.clone()), "pattern {} on {:?}", pattern, text);
    }
}

#[test]
fn ticker_pattern_agrees_with_regex() {
    compare(r">([A-Z0-9]{3})", |t| RankedCompanies::get_ticker(t).ok());
}

#[test]
fn name_pattern_agrees_with_regex() {
    compare(r"\(([A-Z0-9]*)\)", |t| RankedCompanies::get_name(t).ok());
}

#[test]
fn altman_pattern_agrees_with_regex() {
    compare(r">([A-D]{1,3}[\+\-]*)</span>", |t| RankedCompanies::get_altman_rating(t).ok());
}

#[test]
fn f_score_pattern_agrees_with_regex() {
    compare(r">([0-9])</span>", |t| RankedCompanies::get_piotroski_f_score(t).ok());
}

#[test]
fn float_pattern_agrees_with_regex() {
    compare(r">([0-9]*.[0-9]*)%?</div>", |t| RankedCompanies::get_float_value(t).ok());
}
