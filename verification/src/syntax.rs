//! Guessing what language a piece of copied text is written in.

use vstd::prelude::*;
use vstd::utf8::encode_utf8;
use crate::text::{chars_of, contains_chars, has_prefix, is_substring, matches_at};

verus! {

/// `s` with every character turned to lower case, as Unicode defines it.
pub uninterp spec fn lowercase_of(s: Seq<char>) -> Seq<char>;

/// `str::to_lowercase`. The contract claims only that the text depends on
/// the characters alone.
#[verifier::external_body]
fn to_lowercase(s: &str) -> (r: String)
    ensures
        r@ == lowercase_of(s@),
{
    s.to_lowercase()
}

/// A character that code is full of: a brace or a semicolon.
pub open spec fn is_code_char(c: char) -> bool {
    c == '{' || c == '}' || c == ';'
}

/// How many braces and semicolons `s` holds.
pub open spec fn code_chars(s: Seq<char>) -> nat
    decreases s.len(),
{
    if s.len() == 0 {
        0
    } else {
        code_chars(s.drop_last()) + if is_code_char(s.last()) {
            1nat
        } else {
            0nat
        }
    }
}

/// How many line feeds `s` holds.
pub open spec fn line_feeds(s: Seq<char>) -> nat
    decreases s.len(),
{
    if s.len() == 0 {
        0
    } else {
        line_feeds(s.drop_last()) + if s.last() == '\n' {
            1nat
        } else {
            0nat
        }
    }
}

/// How many lines `s` has: one for each line feed, and one for what
/// follows the last line feed, if anything does.
pub open spec fn line_count(s: Seq<char>) -> nat {
    line_feeds(s) + if s.len() > 0 && s.last() != '\n' {
        1nat
    } else {
        0nat
    }
}

/// Text that is shaped like code: more than three braces and semicolons,
/// and fewer than a hundred bytes to the line on average.
pub open spec fn looks_like_code(content: Seq<char>) -> bool {
    let lines = line_count(content);
    let average = if lines > 0 {
        encode_utf8(content).len() as usize / lines as usize
    } else {
        0
    };
    code_chars(content) > 3 && average < 100
}

/// The language that `content` seems to be written in, `lower` being the
/// same text in lower case. The tests are made in this order, and the
/// first that holds decides.
pub open spec fn language_of(content: Seq<char>, lower: Seq<char>) -> Option<Seq<char>> {
    if is_substring("fn main()"@, content) || is_substring("pub fn "@, content) || is_substring(
        "impl "@,
        content,
    ) {
        Some("rust"@)
    } else if is_substring("function "@, content) || is_substring("const "@, content)
        || is_substring("let "@, content) || (is_substring("=>"@, content) && is_substring(
        "{"@,
        content,
    )) {
        Some("javascript"@)
    } else if is_substring("def "@, content) || is_substring("import "@, content) || is_substring(
        "class "@,
        content,
    ) || is_substring("if __name__ == \"__main__\""@, lower) {
        Some("python"@)
    } else if is_substring("package "@, content) || is_substring("func "@, content) || (
    is_substring("type "@, content) && is_substring("struct"@, content)) {
        Some("go"@)
    } else if is_substring("#include"@, content) || is_substring("int main"@, content) {
        Some("cpp"@)
    } else if is_substring("public class "@, content) || is_substring(
        "public static void main"@,
        content,
    ) {
        Some("java"@)
    } else if is_substring("<?php"@, content) || is_substring("<?php"@, lower) {
        Some("php"@)
    } else if is_substring("SELECT "@, content) || (is_substring("select "@, lower) && (
    is_substring(" from "@, lower) || is_substring(" where "@, lower))) {
        Some("sql"@)
    } else if has_prefix(content, "#!/bin/bash"@) || has_prefix(content, "#!/bin/sh"@) {
        Some("bash"@)
    } else if looks_like_code(content) {
        Some("plaintext"@)
    } else {
        None
    }
}

/// The language that `content` seems to be written in.
pub open spec fn spec_detect_code_language(content: Seq<char>) -> Option<Seq<char>> {
    language_of(content, lowercase_of(content))
}

/// Whether `pattern` stands in the text with the characters `hay`.
fn has(hay: &[char], pattern: &str) -> (r: bool)
    ensures
        r == is_substring(pattern@, hay@),
{
    let p = chars_of(pattern);
    contains_chars(hay, p.as_slice())
}

/// Whether the text with the characters `hay` begins with `pattern`.
fn begins(hay: &[char], pattern: &str) -> (r: bool)
    ensures
        r == has_prefix(hay@, pattern@),
{
    let p = chars_of(pattern);
    matches_at(hay, p.as_slice(), 0)
}

/// Counts the braces and semicolons, and the lines, of the text with the
/// characters `v`.
fn shape_of(v: &[char]) -> (r: (usize, usize))
    ensures
        r.0 == code_chars(v@),
        r.1 == line_count(v@),
{
    let mut codes: usize = 0;
    let mut feeds: usize = 0;
    let mut i: usize = 0;
    assert(v@.take(0) =~= Seq::<char>::empty());
    while i < v.len()
        invariant
            i <= v.len(),
            codes <= i,
            feeds <= i,
            codes == code_chars(v@.take(i as int)),
            feeds == line_feeds(v@.take(i as int)),
        decreases v.len() - i,
    {
        assert(v@.take(i + 1).drop_last() =~= v@.take(i as int));
        let c = v[i];
        if c == '{' || c == '}' || c == ';' {
            codes += 1;
        }
        if c == '\n' {
            feeds += 1;
        }
        i += 1;
    }
    assert(v@.take(i as int) =~= v@);
    let lines = if v.len() > 0 && v[v.len() - 1] != '\n' {
        assert(feeds < v.len()) by {
            lemma_line_feeds_bound(v@);
        }
        feeds + 1
    } else {
        feeds
    };
    (codes, lines)
}

/// There are no more line feeds than characters, and fewer where the last
/// character is none.
pub proof fn lemma_line_feeds_bound(s: Seq<char>)
    ensures
        line_feeds(s) <= s.len(),
        s.len() > 0 && s.last() != '\n' ==> line_feeds(s) < s.len(),
    decreases s.len(),
{
    if s.len() > 0 {
        lemma_line_feeds_bound(s.drop_last());
    }
}

/// Guesses the language of `content` from what stands in it.
pub fn detect_code_language(content: &str) -> (r: Option<&'static str>)
    ensures
        match r {
            Some(name) => spec_detect_code_language(content@) == Some(name@),
            None => spec_detect_code_language(content@) is None,
        },
{
    let lowered = to_lowercase(content);
    detect_with_lowercase(content, lowered.as_str())
}

/// Guesses the language of `content` from what stands in it and in
/// `lowered`, the same text in lower case.
pub fn detect_with_lowercase(content: &str, lowered: &str) -> (r: Option<&'static str>)
    ensures
        match r {
            Some(name) => language_of(content@, lowered@) == Some(name@),
            None => language_of(content@, lowered@) is None,
        },
{
    let lower_chars = chars_of(lowered);
    let chars = chars_of(content);
    let c = chars.as_slice();
    let lower = lower_chars.as_slice();
    if has(c, "fn main()") || has(c, "pub fn ") || has(c, "impl ") {
        return Some("rust");
    }
    if has(c, "function ") || has(c, "const ") || has(c, "let ") || (has(c, "=>") && has(c, "{")) {
        return Some("javascript");
    }
    if has(c, "def ") || has(c, "import ") || has(c, "class ") || has(
        lower,
        "if __name__ == \"__main__\"",
    ) {
        return Some("python");
    }
    if has(c, "package ") || has(c, "func ") || (has(c, "type ") && has(c, "struct")) {
        return Some("go");
    }
    if has(c, "#include") || has(c, "int main") {
        return Some("cpp");
    }
    if has(c, "public class ") || has(c, "public static void main") {
        return Some("java");
    }
    if has(c, "<?php") || has(lower, "<?php") {
        return Some("php");
    }
    if has(c, "SELECT ") || (has(lower, "select ") && (has(lower, " from ") || has(lower, " where "))) {
        return Some("sql");
    }
    if begins(c, "#!/bin/bash") || begins(c, "#!/bin/sh") {
        return Some("bash");
    }
    let (codes, lines) = shape_of(c);
    let average = if lines > 0 {
        content.len() / lines
    } else {
        0
    };
    if codes > 3 && average < 100 {
        return Some("plaintext");
    }
    None
}

} // verus!
