//! Episode sources: which hosting provider a source name stands for, and
//! which source paths are kept.
use vstd::prelude::*;

use crate::text::{
    chars_of, contains, contains_chars, replace_all, replace_all_chars, same_chars, string_of, trim,
    trim_chars, trim_end, trim_start,
};

verus! {

/// The hosting services an episode source can point to.
#[derive(Debug, Clone, Copy, PartialEq, Eq, Structural)]
pub enum Provider {
    Wixmp,
    Dropbox,
    Wetransfer,
    Sharepoint,
    Gogoanime,
    Other,
}

/// An episode source that was kept: its provider and its path.
#[derive(Debug)]
pub struct ProvideUrl {
    provider: Provider,
    url: String,
}

/// What a kept source holds, as mathematical values.
pub struct ProvideUrlView {
    pub provider: Provider,
    pub url: Seq<char>,
}

impl View for ProvideUrl {
    type V = ProvideUrlView;

    closed spec fn view(&self) -> ProvideUrlView {
        ProvideUrlView { provider: self.provider, url: self.url@ }
    }
}

/// The marker that precedes an obfuscated path: two dashes.
pub open spec fn double_dash() -> Seq<char> {
    seq!['-', '-']
}

/// The provider that a source name stands for.
pub open spec fn provider_named(name: Seq<char>) -> Provider {
    if name == seq!['S', 'a', 'k'] {
        Provider::Dropbox
    } else if name == seq!['L', 'u', 'f', '-', 'm', 'p', '4'] {
        Provider::Gogoanime
    } else if name == seq!['S', '-', 'm', 'p', '4'] {
        Provider::Dropbox
    } else {
        Provider::Other
    }
}

/// Whether a path points to the web directly: it mentions `http`, `://`
/// or `//`.
pub open spec fn is_direct_link(url: Seq<char>) -> bool {
    ||| contains(url, seq!['h', 't', 't', 'p'])
    ||| contains(url, seq![':', '/', '/'])
    ||| contains(url, seq!['/', '/'])
}

/// The path that is kept for a source path, if it is kept at all: a path
/// with a doubled dash loses every doubled dash and its surrounding white
/// space; otherwise a direct link is dropped and any other path is kept
/// as it is.
pub open spec fn accepted_url(url: Seq<char>) -> Option<Seq<char>> {
    if contains(url, double_dash()) {
        Some(trim(replace_all(url, double_dash(), Seq::empty())))
    } else if is_direct_link(url) {
        None
    } else {
        Some(url)
    }
}

fn provider_for(name: &String) -> (res: Provider)
    ensures
        res == provider_named(name@),
{
    let chars = chars_of(name.as_str());
    let sak = vec!['S', 'a', 'k'];
    let luf = vec!['L', 'u', 'f', '-', 'm', 'p', '4'];
    let smp4 = vec!['S', '-', 'm', 'p', '4'];
    if same_chars(&chars, &sak) {
        Provider::Dropbox
    } else if same_chars(&chars, &luf) {
        Provider::Gogoanime
    } else if same_chars(&chars, &smp4) {
        Provider::Dropbox
    } else {
        Provider::Other
    }
}

impl ProvideUrl {
    /// Keeps a source named `provider` with path `url`, or drops it.
    ///
    /// A path holding `--` is an obfuscated path: every `--` is removed and
    /// the result trimmed. Any other path that mentions `http`, `://` or
    /// `//` is a direct link and is dropped (`None`).
    pub fn new(provider: String, url: String) -> (res: Option<ProvideUrl>)
        ensures
            res is None <==> accepted_url(url@) is None,
            accepted_url(url@) matches Some(kept) ==> res matches Some(p) && p@.url == kept
                && p@.provider == provider_named(provider@),
            res matches Some(p) ==> ((p@.provider == Provider::Dropbox) <==> (provider@ == seq![
                'S',
                'a',
                'k',
            ] || provider@ == seq!['S', '-', 'm', 'p', '4'])),
            res matches Some(p) ==> ((p@.provider == Provider::Gogoanime) <==> provider@ == seq![
                'L',
                'u',
                'f',
                '-',
                'm',
                'p',
                '4',
            ]),
            res matches Some(p) ==> (p@.provider == Provider::Dropbox || p@.provider
                == Provider::Gogoanime || p@.provider == Provider::Other),
    {
        let url_chars = chars_of(url.as_str());
        let dashes = vec!['-', '-'];
        let kept_url = if contains_chars(&url_chars, &dashes) {
            let none: Vec<char> = Vec::new();
            let removed = replace_all_chars(&url_chars, &dashes, &none);
            let trimmed = trim_chars(&removed);
            string_of(&trimmed)
        } else if contains_chars(&url_chars, &vec!['h', 't', 't', 'p']) || contains_chars(
            &url_chars,
            &vec![':', '/', '/'],
        ) || contains_chars(&url_chars, &vec!['/', '/']) {
            return None;
        } else {
            url
        };
        let provider = provider_for(&provider);
        Some(ProvideUrl { provider, url: kept_url })
    }

    /// The provider of this source.
    pub fn provider(&self) -> (res: Provider)
        ensures
            res == self@.provider,
    {
        self.provider
    }

    /// The path of this source.
    pub fn url(&self) -> (res: &str)
        ensures
            res@ == self@.url,
    {
        self.url.as_str()
    }
}

/// No two neighbouring characters of `s` are both dashes.
pub open spec fn no_double_dash(s: Seq<char>) -> bool {
    forall|i: int| 0 <= i < s.len() - 1 ==> !(#[trigger] s[i] == '-' && s[i + 1] == '-')
}

proof fn lemma_removal_keeps_first(s: Seq<char>)
    requires
        s.len() > 0,
        s[0] != '-',
    ensures
        replace_all(s, double_dash(), Seq::empty()).len() > 0,
        replace_all(s, double_dash(), Seq::empty())[0] == s[0],
{
    if 2 <= s.len() {
        assert(s.take(2)[0] == s[0]);
    }
    assert(!(2 <= s.len() && s.take(2) == double_dash()));
}

proof fn lemma_removal_leaves_no_double_dash(s: Seq<char>)
    ensures
        no_double_dash(replace_all(s, double_dash(), Seq::empty())),
    decreases s.len(),
{
    let e = Seq::<char>::empty();
    let dd = double_dash();
    if s.len() == 0 {
    } else if 2 <= s.len() && s.take(2) == dd {
        lemma_removal_leaves_no_double_dash(s.skip(2));
        assert(replace_all(s, dd, e) =~= replace_all(s.skip(2), dd, e));
    } else {
        let t = s.drop_first();
        lemma_removal_leaves_no_double_dash(t);
        let rt = replace_all(t, dd, e);
        let rs = replace_all(s, dd, e);
        assert(rs =~= seq![s[0]] + rt);
        if s[0] == '-' && t.len() > 0 {
            if t[0] == '-' {
                assert(s.take(2) =~= dd);
            }
            lemma_removal_keeps_first(t);
        }
        assert forall|i: int| 0 <= i < rs.len() - 1 implies !(#[trigger] rs[i] == '-' && rs[i
            + 1] == '-') by {
            if i > 0 {
                assert(rs[i] == rt[i - 1]);
                assert(rs[i + 1] == rt[i]);
            }
        }
    }
}

proof fn lemma_trim_keeps_no_double_dash(s: Seq<char>)
    requires
        no_double_dash(s),
    ensures
        no_double_dash(trim(s)),
{
    lemma_trim_start_keeps(s);
    lemma_trim_end_keeps(trim_start(s));
}

proof fn lemma_trim_start_keeps(s: Seq<char>)
    requires
        no_double_dash(s),
    ensures
        no_double_dash(trim_start(s)),
    decreases s.len(),
{
    if s.len() > 0 && crate::text::is_white_space(s[0]) {
        let t = s.drop_first();
        assert forall|i: int| 0 <= i < t.len() - 1 implies !(#[trigger] t[i] == '-' && t[i + 1]
            == '-') by {
            assert(s[i + 1] == t[i]);
        }
        lemma_trim_start_keeps(t);
    }
}

proof fn lemma_trim_end_keeps(s: Seq<char>)
    requires
        no_double_dash(s),
    ensures
        no_double_dash(trim_end(s)),
    decreases s.len(),
{
    if s.len() > 0 && crate::text::is_white_space(s.last()) {
        let t = s.drop_last();
        assert forall|i: int| 0 <= i < t.len() - 1 implies !(#[trigger] t[i] == '-' && t[i + 1]
            == '-') by {
            assert(s[i] == t[i]);
        }
        lemma_trim_end_keeps(t);
    }
}

proof fn lemma_no_double_dash_not_contained(s: Seq<char>)
    requires
        no_double_dash(s),
    ensures
        !contains(s, double_dash()),
{
    assert forall|i: int| !crate::text::occurs_at(s, double_dash(), i) by {
        if crate::text::occurs_at(s, double_dash(), i) {
            let w = s.subrange(i, i + 2);
            assert(w[0] == s[i]);
            assert(w[1] == s[i + 1]);
            assert(s[i] == '-');
        }
    }
}

/// A kept source path never holds two dashes in a row: an obfuscated path
/// loses all of them, and any other kept path had none.
pub proof fn lemma_kept_url_has_no_double_dash(url: Seq<char>)
    ensures
        accepted_url(url) matches Some(kept) ==> !contains(kept, double_dash()),
{
    if contains(url, double_dash()) {
        let removed = replace_all(url, double_dash(), Seq::empty());
        lemma_removal_leaves_no_double_dash(url);
        lemma_trim_keeps_no_double_dash(removed);
        lemma_no_double_dash_not_contained(trim(removed));
    }
}

/// Only three source names have a provider of their own: `Sak` and
/// `S-mp4` are Dropbox and `Luf-mp4` is Gogoanime; every other name is
/// `Other`.
pub proof fn lemma_provider_names(name: Seq<char>)
    ensures
        name == seq!['S', 'a', 'k'] ==> provider_named(name) == Provider::Dropbox,
        name == seq!['S', '-', 'm', 'p', '4'] ==> provider_named(name) == Provider::Dropbox,
        name == seq!['L', 'u', 'f', '-', 'm', 'p', '4'] ==> provider_named(name)
            == Provider::Gogoanime,
        name != seq!['S', 'a', 'k'] && name != seq!['S', '-', 'm', 'p', '4'] && name != seq![
            'L',
            'u',
            'f',
            '-',
            'm',
            'p',
            '4',
        ] ==> provider_named(name) == Provider::Other,
{
}

} // verus!
