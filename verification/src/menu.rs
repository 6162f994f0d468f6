//! The texts exchanged with the interactive picker: the menus it is given,
//! and what is taken from the line the user picked.
use vstd::prelude::*;

use crate::text::{trim, trim_chars, chars_of, string_of};

verus! {

/// A menu with one line `id - label` for each search result.
pub open spec fn anime_menu(entries: Seq<(String, String)>) -> Seq<char>
    decreases entries.len(),
{
    if entries.len() == 0 {
        Seq::empty()
    } else {
        entries[0].0@ + " - "@ + entries[0].1@ + "\n"@ + anime_menu(entries.drop_first())
    }
}

/// A menu with one line for each episode.
pub open spec fn episode_menu(episodes: Seq<String>) -> Seq<char>
    decreases episodes.len(),
{
    if episodes.len() == 0 {
        Seq::empty()
    } else {
        episodes[0]@ + "\n"@ + episode_menu(episodes.drop_first())
    }
}

/// The pattern that finds the identifier in a picked line: a word at the
/// start of the line, followed by a space and a dash.
pub open spec fn id_pattern() -> Seq<char> {
    seq!['^', '(', '\\', 'w', '+', ')', ' ', '-']
}

/// A character that the regular expression class `\w` surely holds: an
/// ASCII letter or digit, or `_`.
pub open spec fn is_ascii_word(c: char) -> bool {
    let u = c as u32;
    ||| 0x30 <= u <= 0x39
    ||| 0x41 <= u <= 0x5a
    ||| 0x61 <= u <= 0x7a
    ||| u == 0x5f
}

/// How many ASCII word characters `text` starts with.
pub open spec fn ascii_word_run(text: Seq<char>) -> int
    decreases text.len(),
{
    if text.len() > 0 && is_ascii_word(text[0]) {
        1 + ascii_word_run(text.drop_first())
    } else {
        0
    }
}

proof fn lemma_ascii_word_run(text: Seq<char>, k: int)
    requires
        0 <= k < text.len(),
        forall|i: int| 0 <= i < k ==> is_ascii_word(text[i]),
        !is_ascii_word(text[k]),
    ensures
        ascii_word_run(text) == k,
    decreases k,
{
    if k > 0 {
        let t = text.drop_first();
        assert forall|i: int| 0 <= i < k - 1 implies is_ascii_word(t[i]) by {
            assert(t[i] == text[i + 1]);
        }
        lemma_ascii_word_run(t, k - 1);
    }
}

/// `text` starts with `k` (at least one) ASCII word characters followed
/// by a space and a dash.
pub open spec fn starts_with_ascii_word(text: Seq<char>, k: int) -> bool {
    &&& 1 <= k
    &&& k + 2 <= text.len()
    &&& forall|i: int| 0 <= i < k ==> is_ascii_word(text[i])
    &&& text[k] == ' '
    &&& text[k + 1] == '-'
}

/// The text of the first capture group of the first match of the regular
/// expression `pattern` in `text` (`None` when the pattern is not valid,
/// does not match, or the group takes no part in the match).
pub uninterp spec fn first_group(pattern: Seq<char>, text: Seq<char>) -> Option<Seq<char>>;

/// `regex::Regex::new(pattern)`, then `captures(text)`, `get(1)` and
/// `as_str`: the first capture group of the first match. For the pattern
/// `^(\w+) -` the crate's syntax says that a group found is a non-empty
/// start of the text, followed by ` -`, holding neither space nor dash
/// (`\w` holds neither), and that a text which starts with ASCII word
/// characters followed by ` -` gives exactly those characters.
#[verifier::external_body]
fn regex_first_group(pattern: &str, text: &str) -> (res: Option<String>)
    ensures
        res is None <==> first_group(pattern@, text@) is None,
        res matches Some(g) ==> first_group(pattern@, text@) == Some(g@),
        pattern@ == id_pattern() ==> (res matches Some(g) ==> g@.len() > 0 && text@.len()
            >= g@.len() + 2 && text@.take(g@.len() + 2int) == g@ + " -"@ && !g@.contains(' ')
            && !g@.contains('-')),
        pattern@ == id_pattern() && starts_with_ascii_word(text@, ascii_word_run(text@)) ==> res
            is Some,
        pattern@ == id_pattern() && starts_with_ascii_word(text@, ascii_word_run(text@)) ==> (
        res matches Some(g) ==> g@ == text@.take(ascii_word_run(text@))),
{
    let re = match regex::Regex::new(pattern) {
        Ok(re) => re,
        Err(_) => return None,
    };
    match re.captures(text) {
        Some(caps) => caps.get(1).map(|m| m.as_str().to_string()),
        None => None,
    }
}

/// The menu given to the picker for a list of search results: one line
/// `id - label` per result, in order.
pub fn anime_menu_text(entries: &Vec<(String, String)>) -> (res: String)
    ensures
        res@ == anime_menu(entries@),
{
    let mut out = String::new();
    let mut i: usize = 0;
    assert(entries@.skip(0) =~= entries@);
    while i < entries.len()
        invariant
            i <= entries.len(),
            anime_menu(entries@) == out@ + anime_menu(entries@.skip(i as int)),
        decreases entries.len() - i,
    {
        let ghost before = out@;
        let ghost rest = entries@.skip(i as int);
        assert(rest[0] == entries@[i as int]);
        assert(rest.drop_first() =~= entries@.skip(i + 1));
        out.append(entries[i].0.as_str());
        out.append(" - ");
        out.append(entries[i].1.as_str());
        out.append("\n");
        assert(before + anime_menu(rest) =~= out@ + anime_menu(entries@.skip(i + 1)));
        i = i + 1;
    }
    assert(out@ + anime_menu(entries@.skip(i as int)) =~= out@);
    out
}

/// The menu given to the picker for a list of episodes: one line per
/// episode, in order.
pub fn episode_menu_text(episodes: &Vec<String>) -> (res: String)
    ensures
        res@ == episode_menu(episodes@),
{
    let mut out = String::new();
    let mut i: usize = 0;
    assert(episodes@.skip(0) =~= episodes@);
    while i < episodes.len()
        invariant
            i <= episodes.len(),
            episode_menu(episodes@) == out@ + episode_menu(episodes@.skip(i as int)),
        decreases episodes.len() - i,
    {
        let ghost before = out@;
        let ghost rest = episodes@.skip(i as int);
        assert(rest[0] == episodes@[i as int]);
        assert(rest.drop_first() =~= episodes@.skip(i + 1));
        out.append(episodes[i].as_str());
        out.append("\n");
        assert(before + episode_menu(rest) =~= out@ + episode_menu(episodes@.skip(i + 1)));
        i = i + 1;
    }
    assert(out@ + episode_menu(episodes@.skip(i as int)) =~= out@);
    out
}

/// The identifier of the show the user picked: nothing when the picker
/// did not succeed; otherwise the word that starts the picked line, when
/// a space and a dash follow it. A picked menu line `id - label` whose
/// identifier is made of ASCII letters, digits and `_` gives that
/// identifier.
pub fn selected_anime_id(succeeded: bool, picked: &str) -> (res: Option<String>)
    ensures
        !succeeded ==> res is None,
        succeeded ==> (res is None <==> first_group(id_pattern(), picked@) is None),
        succeeded ==> (res matches Some(id) ==> first_group(id_pattern(), picked@) == Some(id@)),
        succeeded ==> (res matches Some(id) ==> id@.len() > 0 && picked@.len() >= id@.len() + 2
            && picked@.take(id@.len() + 2int) == id@ + " -"@ && !id@.contains(' ')
            && !id@.contains('-')),
        forall|id: Seq<char>, rest: Seq<char>|
            #![trigger id + " - "@ + rest]
            succeeded && picked@ == id + " - "@ + rest && id.len() > 0 && (forall|i: int|
                0 <= i < id.len() ==> is_ascii_word(id[i])) ==> (res matches Some(got) && got@
                == id),
{
    if !succeeded {
        return None;
    }
    let pattern = "^(\\w+) -";
    proof {
        reveal_strlit("^(\\w+) -");
        reveal_strlit(" - ");
        assert(pattern@ =~= id_pattern());
    }
    let res = regex_first_group(pattern, picked);
    proof {
        assert forall|id: Seq<char>, rest: Seq<char>|
            picked@ == id + " - "@ + rest && id.len() > 0 && (forall|i: int|
                0 <= i < id.len() ==> is_ascii_word(id[i])) implies res matches Some(got) && got@
            == id by {
            let k = id.len() as int;
            assert(picked@[k] == ' ');
            assert(picked@[k + 1] == '-');
            assert(forall|i: int| 0 <= i < k ==> picked@[i] == id[i]);
            assert(picked@.take(k) =~= id);
            lemma_ascii_word_run(picked@, k);
            assert(starts_with_ascii_word(picked@, k));
        }
    }
    res
}

/// The episode the user picked: nothing when the picker did not succeed;
/// otherwise the picked line without surrounding white space.
pub fn selected_episode(succeeded: bool, picked: &str) -> (res: Option<String>)
    ensures
        !succeeded ==> res is None,
        succeeded ==> (res matches Some(e) && e@ == trim(picked@)),
{
    if !succeeded {
        return None;
    }
    let chars = chars_of(picked);
    let trimmed = trim_chars(&chars);
    Some(string_of(&trimmed))
}

} // verus!
