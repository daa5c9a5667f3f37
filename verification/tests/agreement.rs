use lf_blog::analytics::parse_user_agent;
use lf_blog::attachments::get_mime_type;
use lf_blog::order::str_le;
use lf_blog::scanner::decode_text;
use lf_blog::source::{extension, file_stem};
use lf_blog::text::{
    chars_of, first_line_of, folded_chars, push_decimal, skip_spaces, str_contains,
    str_ends_with, str_replace, str_starts_with, string_of_range,
};
use std::path::Path;

/// A small generator of numbers that gives the same numbers on every run.
struct Numbers(u64);

impl Numbers {
    fn next(&mut self) -> u64 {
        self.0 = self.0.wrapping_mul(6364136223846793005).wrapping_add(1442695040888963407);
        self.0 >> 33
    }

    fn below(&mut self, n: usize) -> usize {
        (self.next() % (n as u64)) as usize
    }

    fn text(&mut self, alphabet: &[char], longest: usize) -> String {
        let len = self.below(longest + 1);
        (0..len).map(|_| alphabet[self.below(alphabet.len())]).collect()
    }
}

#[test]
fn replacing_agrees_with_the_standard_library() {
    let mut n = Numbers(1);
    let alphabet = ['a', 'b', '/', 'é'];
    for _ in 0..3000 {
        let s = n.text(&alphabet, 12);
        let mut pat = n.text(&alphabet, 3);
        if pat.is_empty() {
            pat.push('a');
        }
        let to = n.text(&alphabet, 4);
        assert_eq!(str_replace(&s, &pat, &to), s.replace(pat.as_str(), &to));
        assert_eq!(str_contains(&s, &pat), s.contains(pat.as_str()));
        assert_eq!(str_starts_with(&s, &pat), s.starts_with(pat.as_str()));
        assert_eq!(str_ends_with(&s, &pat), s.ends_with(pat.as_str()));
    }
}

#[test]
fn ordering_agrees_with_the_standard_library() {
    let mut n = Numbers(2);
    let alphabet = ['a', 'b', 'B', '-', '0', 'é', '提', '\u{10000}', '\u{ffff}'];
    for _ in 0..3000 {
        let a = n.text(&alphabet, 5);
        let b = n.text(&alphabet, 5);
        assert_eq!(str_le(&a, &b), a <= b);
    }
}

#[test]
fn lines_and_white_space_agree_with_the_standard_library() {
    let mut n = Numbers(3);
    let alphabet = ['a', ' ', '\n', '\r', '\t', '\u{a0}', '\u{3000}', '\u{200b}', 'b'];
    for _ in 0..3000 {
        let s = n.text(&alphabet, 8);
        assert_eq!(first_line_of(&s), s.lines().next().map(|l| l.to_string()));
        let chars = chars_of(&s);
        let start = skip_spaces(&chars, 0);
        assert_eq!(string_of_range(&chars, start, chars.len()), s.trim_start());
    }
}

#[test]
fn file_names_agree_with_the_standard_library() {
    let mut n = Numbers(4);
    let alphabet = ['a', '.', 'm', 'd', '_', 'é'];
    for _ in 0..3000 {
        let s = n.text(&alphabet, 7);
        if s.is_empty() || s == "." || s == ".." {
            continue;
        }
        let path = Path::new(&s);
        let ext = path.extension().and_then(|e| e.to_str()).map(|e| e.to_string());
        let stem = path.file_stem().and_then(|e| e.to_str()).map(|e| e.to_string());
        assert_eq!(extension(&s), ext, "extension of {:?}", s);
        assert_eq!(Some(file_stem(&s)), stem, "stem of {:?}", s);
    }
}

#[test]
fn mime_types_agree_with_unicode_lower_case() {
    let by_lower = |e: &str| -> &'static str {
        match e.to_lowercase().as_str() {
            "jpg" | "jpeg" => "image/jpeg",
            "png" => "image/png",
            "gif" => "image/gif",
            "svg" => "image/svg+xml",
            "webp" => "image/webp",
            "pdf" => "application/pdf",
            "zip" => "application/zip",
            "mp4" => "video/mp4",
            "mp3" => "audio/mpeg",
            "txt" => "text/plain",
            "css" => "text/css",
            "js" => "application/javascript",
            "html" => "text/html",
            _ => "application/octet-stream",
        }
    };
    let known = ["jpg", "jpeg", "png", "gif", "svg", "webp", "pdf", "zip", "mp4", "mp3", "txt", "css", "js", "html"];
    let mut n = Numbers(5);
    for _ in 0..3000 {
        let base = known[n.below(known.len())];
        let e: String = base
            .chars()
            .map(|c| match n.below(6) {
                0 => c.to_ascii_uppercase(),
                1 => 'İ',
                2 => '\u{212a}',
                _ => c,
            })
            .collect();
        assert_eq!(get_mime_type(&e), by_lower(&e), "extension {:?}", e);
    }
}

#[test]
fn browsers_agree_with_unicode_lower_case() {
    let by_lower = |ua: &str| -> &'static str {
        let ua = ua.to_lowercase();
        if ua.contains("chrome") && !ua.contains("chromium") {
            "Chrome"
        } else if ua.contains("firefox") {
            "Firefox"
        } else if ua.contains("safari") && !ua.contains("chrome") {
            "Safari"
        } else if ua.contains("edge") {
            "Edge"
        } else if ua.contains("opera") || ua.contains("opr") {
            "Opera"
        } else {
            "Other"
        }
    };
    let words = ["Chrome", "CHROMIUM", "Firefox", "safari", "Edge", "OPR", "opera", "x", " ", "İ", "\u{212a}", "Σ"];
    let mut n = Numbers(6);
    for _ in 0..3000 {
        let count = n.below(4);
        let ua: String = (0..count).map(|_| words[n.below(words.len())]).collect();
        assert_eq!(parse_user_agent(&ua).0, by_lower(&ua), "user agent {:?}", ua);
    }
}

#[test]
fn folding_and_numerals_agree_with_the_standard_library() {
    let mut n = Numbers(7);
    let alphabet = ['a', 'Z', 'é', 'É', '[', '@', '`', '{', 'M'];
    for _ in 0..1000 {
        let s = n.text(&alphabet, 6);
        let folded: String = folded_chars(&s).into_iter().collect();
        assert_eq!(folded, s.to_ascii_lowercase());
        let k = n.next() as usize;
        let mut out = Vec::new();
        push_decimal(&mut out, k);
        assert_eq!(out.into_iter().collect::<String>(), k.to_string());
    }
}

#[test]
fn decoding_agrees_with_the_standard_library() {
    let mut n = Numbers(8);
    for _ in 0..3000 {
        let len = n.below(5);
        let bytes: Vec<u8> = (0..len).map(|_| [0x41, 0xc3, 0xa9, 0xe2, 0x9c, 0x93, 0xf0, 0x80, 0xff][n.below(9)]).collect();
        assert_eq!(decode_text(&bytes), String::from_utf8(bytes.clone()).ok());
    }
}
