//! Decoding of the obfuscated source paths that the API hands out.
//!
//! A path is written as a run of two-character hexadecimal codes, each
//! standing for one character of the real path. The response text is
//! first freed of blanks, cut to its second `:`-separated field when it has
//! a colon, decoded code by code (a code without a meaning is kept as it
//! is, and an odd last character too), trimmed, and finally every `clock`
//! in it becomes `clock.json`.
use vstd::prelude::*;

use crate::text::{
    chars_of, contains, occurs_at, replace_all, replace_all_chars, string_of, trim, trim_chars,
};

verus! {

/// Why a response could not be decoded.
#[derive(Debug, Clone, Copy, PartialEq, Eq, Structural)]
pub enum ProviderInitError {
    /// The response is shorter than 30 bytes.
    TooShort,
}

/// The message of a refusal.
pub open spec fn provider_init_message(e: ProviderInitError) -> Seq<char> {
    match e {
        ProviderInitError::TooShort => "non valid response: too small"@,
    }
}

impl ProviderInitError {
    /// The message that tells why the response was refused.
    pub fn to_string(&self) -> (res: String)
        ensures
            res@ == provider_init_message(*self),
    {
        match self {
            ProviderInitError::TooShort => String::from_str("non valid response: too small"),
        }
    }
}

/// The characters that separate words on a command line: space, tab and
/// line feed.
pub open spec fn is_blank(c: char) -> bool {
    c == ' ' || c == '\t' || c == '\n'
}

/// `s` without its blanks.
pub open spec fn strip_blanks(s: Seq<char>) -> Seq<char>
    decreases s.len(),
{
    if s.len() == 0 {
        s
    } else if is_blank(s[0]) {
        strip_blanks(s.drop_first())
    } else {
        seq![s[0]] + strip_blanks(s.drop_first())
    }
}

/// What follows the first colon of `s`, if `s` has one.
pub open spec fn after_colon(s: Seq<char>) -> Option<Seq<char>>
    decreases s.len(),
{
    if s.len() == 0 {
        None
    } else if s[0] == ':' {
        Some(s.drop_first())
    } else {
        after_colon(s.drop_first())
    }
}

/// What precedes the first colon of `s` (all of `s` if it has none).
pub open spec fn before_colon(s: Seq<char>) -> Seq<char>
    decreases s.len(),
{
    if s.len() == 0 || s[0] == ':' {
        Seq::empty()
    } else {
        seq![s[0]] + before_colon(s.drop_first())
    }
}

/// The second `:`-separated field of `s`, or all of `s` when it has no
/// colon (what `cut -d':' -f2` prints).
pub open spec fn second_field(s: Seq<char>) -> Seq<char> {
    match after_colon(s) {
        Some(rest) => before_colon(rest),
        None => s,
    }
}

/// The character that the two-character code `a b` stands for, if any.
pub open spec fn code_char(a: char, b: char) -> Option<char> {
    if a == '0' {
        if b == '0' {
            Some('8')
        } else if b == '1' {
            Some('9')
        } else if b == '5' {
            Some('=')
        } else if b == '7' {
            Some('?')
        } else if b == '8' {
            Some('0')
        } else if b == '9' {
            Some('1')
        } else if b == 'a' {
            Some('2')
        } else if b == 'b' {
            Some('3')
        } else if b == 'c' {
            Some('4')
        } else if b == 'd' {
            Some('5')
        } else if b == 'e' {
            Some('6')
        } else if b == 'f' {
            Some('7')
        } else {
            None
        }
    } else if a == '1' {
        if b == '7' {
            Some('/')
        } else if b == 'e' {
            Some('&')
        } else {
            None
        }
    } else if a == '4' {
        if b == '8' {
            Some('p')
        } else if b == 'a' {
            Some('r')
        } else if b == 'c' {
            Some('t')
        } else if b == 'e' {
            Some('v')
        } else if b == 'f' {
            Some('w')
        } else {
            None
        }
    } else if a == '5' {
        if b == '1' {
            Some('i')
        } else if b == '3' {
            Some('k')
        } else if b == '4' {
            Some('l')
        } else if b == '7' {
            Some('o')
        } else if b == '9' {
            Some('a')
        } else if b == 'a' {
            Some('b')
        } else if b == 'b' {
            Some('c')
        } else if b == 'c' {
            Some('d')
        } else if b == 'd' {
            Some('e')
        } else if b == 'e' {
            Some('f')
        } else {
            None
        }
    } else {
        None
    }
}

/// What one code becomes: its character, or the code itself when it has
/// no meaning.
pub open spec fn decode_code(a: char, b: char) -> Seq<char> {
    match code_char(a, b) {
        Some(c) => seq![c],
        None => seq![a, b],
    }
}

/// `s` decoded code by code, from the left; an odd last character stays.
pub open spec fn decode_pairs(s: Seq<char>) -> Seq<char>
    decreases s.len(),
{
    if s.len() < 2 {
        s
    } else {
        decode_code(s[0], s[1]) + decode_pairs(s.skip(2))
    }
}

/// The text `clock`.
pub open spec fn clock() -> Seq<char> {
    seq!['c', 'l', 'o', 'c', 'k']
}

/// The text `clock.json`.
pub open spec fn clock_json() -> Seq<char> {
    seq!['c', 'l', 'o', 'c', 'k', '.', 'j', 's', 'o', 'n']
}

/// The decoded path before its `clock` is renamed.
pub open spec fn decoded_path(resp: Seq<char>) -> Seq<char> {
    trim(decode_pairs(second_field(strip_blanks(resp))))
}

/// The path that a response decodes to.
pub open spec fn provider_path(resp: Seq<char>) -> Seq<char> {
    replace_all(decoded_path(resp), clock(), clock_json())
}

fn code_to_char(a: char, b: char) -> (res: Option<char>)
    ensures
        res == code_char(a, b),
{
    if a == '0' {
        if b == '0' {
            Some('8')
        } else if b == '1' {
            Some('9')
        } else if b == '5' {
            Some('=')
        } else if b == '7' {
            Some('?')
        } else if b == '8' {
            Some('0')
        } else if b == '9' {
            Some('1')
        } else if b == 'a' {
            Some('2')
        } else if b == 'b' {
            Some('3')
        } else if b == 'c' {
            Some('4')
        } else if b == 'd' {
            Some('5')
        } else if b == 'e' {
            Some('6')
        } else if b == 'f' {
            Some('7')
        } else {
            None
        }
    } else if a == '1' {
        if b == '7' {
            Some('/')
        } else if b == 'e' {
            Some('&')
        } else {
            None
        }
    } else if a == '4' {
        if b == '8' {
            Some('p')
        } else if b == 'a' {
            Some('r')
        } else if b == 'c' {
            Some('t')
        } else if b == 'e' {
            Some('v')
        } else if b == 'f' {
            Some('w')
        } else {
            None
        }
    } else if a == '5' {
        if b == '1' {
            Some('i')
        } else if b == '3' {
            Some('k')
        } else if b == '4' {
            Some('l')
        } else if b == '7' {
            Some('o')
        } else if b == '9' {
            Some('a')
        } else if b == 'a' {
            Some('b')
        } else if b == 'b' {
            Some('c')
        } else if b == 'c' {
            Some('d')
        } else if b == 'd' {
            Some('e')
        } else if b == 'e' {
            Some('f')
        } else {
            None
        }
    } else {
        None
    }
}

/// `s` without its blanks.
fn strip_blank_chars(s: &Vec<char>) -> (res: Vec<char>)
    ensures
        res@ == strip_blanks(s@),
{
    let mut out: Vec<char> = Vec::new();
    let mut i: usize = 0;
    assert(s@.skip(0) =~= s@);
    while i < s.len()
        invariant
            i <= s.len(),
            strip_blanks(s@) == out@ + strip_blanks(s@.skip(i as int)),
        decreases s.len() - i,
    {
        let c = s[i];
        assert(s@.skip(i as int).drop_first() =~= s@.skip(i + 1));
        if c == ' ' || c == '\t' || c == '\n' {
        } else {
            let ghost before = out@;
            out.push(c);
            assert(before + (seq![c] + strip_blanks(s@.skip(i + 1))) =~= out@ + strip_blanks(
                s@.skip(i + 1),
            ));
        }
        i = i + 1;
    }
    assert(out@ + strip_blanks(s@.skip(i as int)) =~= out@);
    out
}

/// The second `:`-separated field of `s`, or all of `s` without a colon.
fn second_field_chars(s: &Vec<char>) -> (res: Vec<char>)
    ensures
        res@ == second_field(s@),
{
    let mut i: usize = 0;
    assert(s@.skip(0) =~= s@);
    while i < s.len() && s[i] != ':'
        invariant
            i <= s.len(),
            after_colon(s@) == after_colon(s@.skip(i as int)),
        decreases s.len() - i,
    {
        assert(s@.skip(i as int).drop_first() =~= s@.skip(i + 1));
        i = i + 1;
    }
    if i == s.len() {
        assert(s@.skip(i as int).len() == 0);
        let mut copy: Vec<char> = Vec::new();
        let mut k: usize = 0;
        while k < s.len()
            invariant
                k <= s.len(),
                copy@ == s@.take(k as int),
            decreases s.len() - k,
        {
            copy.push(s[k]);
            k = k + 1;
            assert(copy@ =~= s@.take(k as int));
        }
        assert(s@.take(s@.len() as int) =~= s@);
        return copy;
    }
    let ghost rest = s@.skip(i + 1);
    assert(s@.skip(i as int).drop_first() =~= rest);
    assert(after_colon(s@) == Some(rest));
    let mut out: Vec<char> = Vec::new();
    let mut j: usize = i + 1;
    assert(rest.skip(0) =~= rest);
    while j < s.len() && s[j] != ':'
        invariant
            i + 1 <= j <= s.len(),
            rest == s@.skip(i + 1),
            before_colon(rest) == out@ + before_colon(s@.skip(j as int)),
        decreases s.len() - j,
    {
        let ghost before = out@;
        assert(s@.skip(j as int).drop_first() =~= s@.skip(j + 1));
        out.push(s[j]);
        assert(before + (seq![s@[j as int]] + before_colon(s@.skip(j + 1))) =~= out@
            + before_colon(s@.skip(j + 1)));
        j = j + 1;
    }
    assert(before_colon(s@.skip(j as int)) =~= Seq::<char>::empty());
    assert(out@ + before_colon(s@.skip(j as int)) =~= out@);
    out
}

/// `s` decoded code by code.
fn decode_pair_chars(s: &Vec<char>) -> (res: Vec<char>)
    ensures
        res@ == decode_pairs(s@),
{
    let mut out: Vec<char> = Vec::new();
    let mut i: usize = 0;
    assert(s@.skip(0) =~= s@);
    while i < s.len()
        invariant
            i <= s.len(),
            decode_pairs(s@) == out@ + decode_pairs(s@.skip(i as int)),
        decreases s.len() - i,
    {
        let ghost before = out@;
        let ghost rest = s@.skip(i as int);
        if s.len() - i < 2 {
            out.push(s[i]);
            assert(rest =~= seq![s@[i as int]]);
            assert(s@.skip(i + 1).len() == 0);
            assert(out@ + decode_pairs(s@.skip(i + 1)) =~= before + decode_pairs(rest));
            i = i + 1;
        } else {
            let a = s[i];
            let b = s[i + 1];
            match code_to_char(a, b) {
                Some(c) => {
                    out.push(c);
                },
                None => {
                    out.push(a);
                    out.push(b);
                },
            }
            assert(out@ =~= before + decode_code(a, b));
            assert(rest[0] == a && rest[1] == b);
            assert(rest.skip(2) =~= s@.skip(i + 2));
            assert(out@ + decode_pairs(s@.skip(i + 2)) =~= before + decode_pairs(rest));
            i = i + 2;
        }
    }
    assert(out@ + decode_pairs(s@.skip(i as int)) =~= out@);
    out
}

/// Decodes the obfuscated path in a response.
///
/// A response shorter than 30 bytes is refused with the message
/// `non valid response: too small`; any other decodes to `provider_path`
/// of its characters.
pub fn provider_init(resp: &str) -> (res: Result<String, ProviderInitError>)
    ensures
        res is Err <==> resp.len() < 30,
        res matches Ok(path) ==> path@ == provider_path(resp@),
        res matches Err(e) ==> e == ProviderInitError::TooShort && provider_init_message(e)
            == "non valid response: too small"@,
{
    if resp.len() < 30 {
        return Err(ProviderInitError::TooShort);
    }
    let chars = chars_of(resp);
    let words = strip_blank_chars(&chars);
    let field = second_field_chars(&words);
    let decoded = decode_pair_chars(&field);
    let trimmed = trim_chars(&decoded);
    let renamed = replace_all_chars(
        &trimmed,
        &vec!['c', 'l', 'o', 'c', 'k'],
        &vec!['c', 'l', 'o', 'c', 'k', '.', 'j', 's', 'o', 'n'],
    );
    Ok(string_of(&renamed))
}

/// Replacing every occurrence of a pattern that occurs leaves the
/// replacement in the result.
pub proof fn lemma_replacement_appears(s: Seq<char>, p: Seq<char>, r: Seq<char>)
    requires
        p.len() > 0,
        contains(s, p),
    ensures
        contains(replace_all(s, p, r), r),
    decreases s.len(),
{
    let out = replace_all(s, p, r);
    if p.len() <= s.len() && s.take(p.len() as int) == p {
        assert(out.subrange(0, r.len() as int) =~= r);
        assert(occurs_at(out, r, 0));
    } else {
        let i = choose|i: int| occurs_at(s, p, i);
        if i == 0 {
            assert(s.take(p.len() as int) =~= s.subrange(0, p.len() as int));
        }
        let t = s.drop_first();
        assert(t.subrange(i - 1, i - 1 + p.len()) =~= s.subrange(i, i + p.len()));
        assert(occurs_at(t, p, i - 1));
        lemma_replacement_appears(t, p, r);
        let rt = replace_all(t, p, r);
        let j = choose|j: int| occurs_at(rt, r, j);
        assert(out =~= seq![s[0]] + rt);
        assert(out.subrange(j + 1, j + 1 + r.len()) =~= rt.subrange(j, j + r.len()));
        assert(occurs_at(out, r, j + 1));
    }
}

/// A response whose decoded path mentions `clock` decodes to a path that
/// mentions `clock.json`.
pub proof fn lemma_clock_becomes_clock_json(resp: Seq<char>)
    requires
        contains(decoded_path(resp), clock()),
    ensures
        contains(provider_path(resp), clock_json()),
{
    lemma_replacement_appears(decoded_path(resp), clock(), clock_json());
}

/// Codes are decoded one by one: decoding a text that splits after an even
/// number of characters is decoding both parts.
pub proof fn lemma_decode_splits(a: Seq<char>, b: Seq<char>)
    requires
        a.len() % 2 == 0,
    ensures
        decode_pairs(a + b) == decode_pairs(a) + decode_pairs(b),
    decreases a.len(),
{
    if a.len() == 0 {
        assert(a + b =~= b);
        assert(decode_pairs(a) =~= Seq::<char>::empty());
        assert(decode_pairs(a) + decode_pairs(b) =~= decode_pairs(b));
    } else {
        let ab = a + b;
        assert(ab[0] == a[0] && ab[1] == a[1]);
        assert(ab.skip(2) =~= a.skip(2) + b);
        lemma_decode_splits(a.skip(2), b);
        assert(decode_pairs(ab) =~= decode_pairs(a) + decode_pairs(b));
    }
}

/// Decoding never lengthens a text: each code gives one or two characters.
pub proof fn lemma_decode_no_longer(s: Seq<char>)
    ensures
        decode_pairs(s).len() <= s.len(),
    decreases s.len(),
{
    if s.len() >= 2 {
        lemma_decode_no_longer(s.skip(2));
    }
}

/// The code that stands for a character, as the substitution table of the
/// decoding script lists it (in the script's order); `None` for a
/// character that the table does not list.
pub open spec fn table_code(c: char) -> Option<(char, char)> {
    if c == '9' {
        Some(('0', '1'))
    } else if c == '0' {
        Some(('0', '8'))
    } else if c == '=' {
        Some(('0', '5'))
    } else if c == '2' {
        Some(('0', 'a'))
    } else if c == '3' {
        Some(('0', 'b'))
    } else if c == '4' {
        Some(('0', 'c'))
    } else if c == '?' {
        Some(('0', '7'))
    } else if c == '8' {
        Some(('0', '0'))
    } else if c == 'd' {
        Some(('5', 'c'))
    } else if c == '7' {
        Some(('0', 'f'))
    } else if c == 'f' {
        Some(('5', 'e'))
    } else if c == '/' {
        Some(('1', '7'))
    } else if c == 'l' {
        Some(('5', '4'))
    } else if c == '1' {
        Some(('0', '9'))
    } else if c == 'p' {
        Some(('4', '8'))
    } else if c == 'w' {
        Some(('4', 'f'))
    } else if c == '6' {
        Some(('0', 'e'))
    } else if c == 'c' {
        Some(('5', 'b'))
    } else if c == 'e' {
        Some(('5', 'd'))
    } else if c == '5' {
        Some(('0', 'd'))
    } else if c == 'k' {
        Some(('5', '3'))
    } else if c == '&' {
        Some(('1', 'e'))
    } else if c == 'b' {
        Some(('5', 'a'))
    } else if c == 'a' {
        Some(('5', '9'))
    } else if c == 'r' {
        Some(('4', 'a'))
    } else if c == 't' {
        Some(('4', 'c'))
    } else if c == 'v' {
        Some(('4', 'e'))
    } else if c == 'o' {
        Some(('5', '7'))
    } else if c == 'i' {
        Some(('5', '1'))
    } else {
        None
    }
}

/// A text whose characters the table lists, written code by code.
pub open spec fn encode_path(t: Seq<char>) -> Seq<char>
    decreases t.len(),
{
    if t.len() == 0 {
        Seq::empty()
    } else {
        let (a, b) = table_code(t[0])->0;
        seq![a, b] + encode_path(t.drop_first())
    }
}

/// Every character of `t` is listed in the table.
pub open spec fn in_table(t: Seq<char>) -> bool {
    forall|i: int| 0 <= i < t.len() ==> (#[trigger] table_code(t[i])) is Some
}

/// Each code of the table decodes to the character the table gives it.
pub proof fn lemma_table_codes_decode()
    ensures
        forall|c: char|
            (#[trigger] table_code(c)) matches Some((a, b)) ==> code_char(a, b) == Some(c),
{
}

/// A code decodes to a character only as the table says: the table lists
/// that character with exactly that code.
pub proof fn lemma_decoded_codes_are_in_table()
    ensures
        forall|a: char, b: char|
            (#[trigger] code_char(a, b)) matches Some(c) ==> table_code(c) == Some((a, b)),
{
}

/// No two codes decode to the same character.
pub proof fn lemma_codes_are_distinct(a1: char, b1: char, a2: char, b2: char)
    requires
        code_char(a1, b1) is Some,
        code_char(a1, b1) == code_char(a2, b2),
    ensures
        a1 == a2 && b1 == b2,
{
    lemma_decoded_codes_are_in_table();
    assert(table_code(code_char(a1, b1)->0) == Some((a1, b1)));
    assert(table_code(code_char(a2, b2)->0) == Some((a2, b2)));
}

/// Decoding a text written code by code with the table gives the text back.
pub proof fn lemma_decode_encoded(t: Seq<char>)
    requires
        in_table(t),
    ensures
        decode_pairs(encode_path(t)) == t,
    decreases t.len(),
{
    if t.len() > 0 {
        let rest = t.drop_first();
        assert(in_table(rest)) by {
            assert forall|i: int| 0 <= i < rest.len() implies (#[trigger] table_code(rest[i])) is Some by {
                assert(rest[i] == t[i + 1]);
                assert(table_code(t[i + 1]) is Some);
            }
        }
        lemma_decode_encoded(rest);
        assert(table_code(t[0]) is Some);
        let (a, b) = table_code(t[0])->0;
        lemma_table_codes_decode();
        assert(code_char(a, b) == Some(t[0]));
        let e = encode_path(t);
        assert(e =~= seq![a, b] + encode_path(rest));
        assert(e.skip(2) =~= encode_path(rest));
        assert(e[0] == a && e[1] == b);
        assert(decode_pairs(e) =~= seq![t[0]] + rest);
    }
}

proof fn lemma_encoded_has_only_hex(t: Seq<char>)
    requires
        in_table(t),
    ensures
        forall|i: int|
            0 <= i < encode_path(t).len() ==> {
                let x = #[trigger] encode_path(t)[i];
                ('0' <= x <= '9') || ('a' <= x <= 'f')
            },
    decreases t.len(),
{
    if t.len() > 0 {
        let rest = t.drop_first();
        assert(in_table(rest)) by {
            assert forall|i: int| 0 <= i < rest.len() implies (#[trigger] table_code(rest[i])) is Some by {
                assert(rest[i] == t[i + 1]);
                assert(table_code(t[i + 1]) is Some);
            }
        }
        lemma_encoded_has_only_hex(rest);
        assert(table_code(t[0]) is Some);
        let (a, b) = table_code(t[0])->0;
        let e = encode_path(t);
        assert(e =~= seq![a, b] + encode_path(rest));
        assert forall|i: int| 0 <= i < e.len() implies {
            let x = #[trigger] e[i];
            ('0' <= x <= '9') || ('a' <= x <= 'f')
        } by {
            if i >= 2 {
                assert(e[i] == encode_path(rest)[i - 2]);
            }
        }
    }
}

proof fn lemma_no_blanks_kept(s: Seq<char>)
    requires
        forall|i: int| 0 <= i < s.len() ==> !is_blank(#[trigger] s[i]),
    ensures
        strip_blanks(s) == s,
    decreases s.len(),
{
    if s.len() > 0 {
        let t = s.drop_first();
        assert forall|i: int| 0 <= i < t.len() implies !is_blank(#[trigger] t[i]) by {
            assert(t[i] == s[i + 1]);
        }
        lemma_no_blanks_kept(t);
        assert(s =~= seq![s[0]] + t);
    }
}

proof fn lemma_no_colon_no_field(s: Seq<char>)
    requires
        forall|i: int| 0 <= i < s.len() ==> #[trigger] s[i] != ':',
    ensures
        after_colon(s) is None,
    decreases s.len(),
{
    if s.len() > 0 {
        let t = s.drop_first();
        assert forall|i: int| 0 <= i < t.len() implies #[trigger] t[i] != ':' by {
            assert(t[i] == s[i + 1]);
        }
        lemma_no_colon_no_field(t);
    }
}

/// A response that writes a path of table characters code by code decodes
/// to that path, with every `clock` in it renamed `clock.json`.
pub proof fn lemma_encoded_path_is_decoded(t: Seq<char>)
    requires
        in_table(t),
    ensures
        provider_path(encode_path(t)) == replace_all(t, clock(), clock_json()),
{
    let e = encode_path(t);
    lemma_encoded_has_only_hex(t);
    assert forall|i: int| 0 <= i < e.len() implies !is_blank(#[trigger] e[i]) by {
        let x = e[i];
        assert(('0' <= x <= '9') || ('a' <= x <= 'f'));
    }
    lemma_no_blanks_kept(e);
    assert forall|i: int| 0 <= i < e.len() implies #[trigger] e[i] != ':' by {
        let x = e[i];
        assert(('0' <= x <= '9') || ('a' <= x <= 'f'));
    }
    lemma_no_colon_no_field(e);
    lemma_decode_encoded(t);
    assert(second_field(strip_blanks(e)) == e);
    assert(decode_pairs(second_field(strip_blanks(e))) == t);
    if t.len() > 0 {
        assert(table_code(t[0]) is Some);
        assert(!crate::text::is_white_space(t[0]));
        assert(table_code(t[t.len() - 1]) is Some);
        assert(!crate::text::is_white_space(t.last()));
    }
    assert(crate::text::trim_start(t) == t);
    assert(crate::text::trim_end(t) == t);
    assert(trim(t) == t);
}

} // verus!
