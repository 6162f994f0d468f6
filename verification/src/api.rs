//! What the client takes from the API's replies: the shows that a search
//! finds, the episodes of a show, and the usable sources of an episode.
use vstd::prelude::*;

use crate::json::{
    array_items, as_items, as_string, compact_text, get_member, get_member_of, json_document,
    member, member_of, parse_json, string_value, text_of, JsonValue,
};
use crate::provider::{
    accepted_url, double_dash, lemma_kept_url_has_no_double_dash, provider_named, ProvideUrl,
    ProvideUrlView,
};
use crate::text::contains;

verus! {

/// Why a reply could not be read.
#[derive(Debug)]
pub enum ApiError {
    /// The reply is not one JSON value.
    Json(serde_json::Error),
}

/// The text of a string value, or the empty text.
pub open spec fn string_or_empty(v: Option<JsonValue>) -> Seq<char> {
    match string_value(v) {
        Some(s) => s,
        None => Seq::empty(),
    }
}

/// The elements of an array value, or none.
pub open spec fn items_or_none(v: Option<JsonValue>) -> Seq<JsonValue> {
    match array_items(v) {
        Some(items) => items,
        None => Seq::empty(),
    }
}

/// The shows that a search reply lists: `data.shows.edges`.
pub open spec fn search_edges(doc: JsonValue) -> Seq<JsonValue> {
    items_or_none(member_of(member_of(member(doc, "data"@), "shows"@), "edges"@))
}

/// The label of a show: its name, then its available episodes as JSON
/// text, as in `Frieren ({"sub":28} episodes)`.
pub open spec fn search_label(edge: JsonValue) -> Seq<char> {
    string_or_empty(member(edge, "name"@)) + " ("@ + compact_text(
        member(edge, "availableEpisodes"@),
    ) + " episodes)"@
}

/// The result for one show: its identifier and its label.
pub open spec fn search_entry(edge: JsonValue) -> (Seq<char>, Seq<char>) {
    (string_or_empty(member(edge, "_id"@)), search_label(edge))
}

/// `found` lists, in order, one result for each show of the reply `doc`.
pub open spec fn lists_search_results(found: Seq<(String, String)>, doc: JsonValue) -> bool {
    &&& found.len() == search_edges(doc).len()
    &&& forall|i: int|
        0 <= i < found.len() ==> (#[trigger] found[i].0@, found[i].1@) == search_entry(
            search_edges(doc)[i],
        )
}

/// The episode list that an episodes reply holds for a translation `mode`:
/// `data.show.availableEpisodesDetail[mode]`.
pub open spec fn episode_items(doc: JsonValue, mode: Seq<char>) -> Seq<JsonValue> {
    items_or_none(
        member_of(
            member_of(member_of(member(doc, "data"@), "show"@), "availableEpisodesDetail"@),
            mode,
        ),
    )
}

/// The string elements among `items`, in order; the others are skipped.
pub open spec fn string_items(items: Seq<JsonValue>) -> Seq<Seq<char>>
    decreases items.len(),
{
    if items.len() == 0 {
        Seq::empty()
    } else {
        match string_value(Some(items[0])) {
            Some(s) => seq![s] + string_items(items.drop_first()),
            None => string_items(items.drop_first()),
        }
    }
}

/// The sources that an episode reply lists: `data.episode.sourceUrls`.
pub open spec fn source_items(doc: JsonValue) -> Seq<JsonValue> {
    items_or_none(member_of(member_of(member(doc, "data"@), "episode"@), "sourceUrls"@))
}

/// The source that one entry gives, if it names a source and a path, and
/// the path is kept.
pub open spec fn source_of(entry: JsonValue) -> Option<ProvideUrlView> {
    match (
        string_value(member(entry, "sourceName"@)),
        string_value(member(entry, "sourceUrl"@)),
    ) {
        (Some(name), Some(url)) => match accepted_url(url) {
            Some(kept) => Some(ProvideUrlView { provider: provider_named(name), url: kept }),
            None => None,
        },
        _ => None,
    }
}

/// The sources that the entries give, in order.
pub open spec fn kept_sources(items: Seq<JsonValue>) -> Seq<ProvideUrlView>
    decreases items.len(),
{
    if items.len() == 0 {
        Seq::empty()
    } else {
        match source_of(items[0]) {
            Some(p) => seq![p] + kept_sources(items.drop_first()),
            None => kept_sources(items.drop_first()),
        }
    }
}

/// The results of a search reply: for each show listed under
/// `data.shows.edges`, its identifier (empty when it has none) and a label
/// made of its name and its available episodes.
pub fn search_results(doc: &JsonValue) -> (res: Vec<(String, String)>)
    ensures
        lists_search_results(res@, *doc),
        array_items(member_of(member_of(member(*doc, "data"@), "shows"@), "edges"@)) is None ==> res@.len() == 0,
        array_items(member_of(member_of(member(*doc, "data"@), "shows"@), "edges"@)) matches Some(edges) ==> res@.len() == edges.len(),
        array_items(member_of(member_of(member(*doc, "data"@), "shows"@), "edges"@)) matches Some(edges) ==> (forall|i: int|
            0 <= i < edges.len() ==> (#[trigger] res@[i]).0@ == string_or_empty(
                member(edges[i], "_id"@),
            ) && res@[i].1@ == string_or_empty(member(edges[i], "name"@)) + " ("@
                + compact_text(member(edges[i], "availableEpisodes"@)) + " episodes)"@),
{
    let mut found: Vec<(String, String)> = Vec::new();
    let data = get_member(doc, "data");
    let shows = get_member_of(data, "shows");
    let edges = get_member_of(shows, "edges");
    if let Some(items) = as_items(edges) {
        let mut i: usize = 0;
        while i < items.len()
            invariant
                i <= items.len(),
                items@ == search_edges(*doc),
                found@.len() == i,
                forall|k: int|
                    0 <= k < i ==> (#[trigger] found@[k].0@, found@[k].1@) == search_entry(
                        items@[k],
                    ),
            decreases items.len() - i,
        {
            let edge = &items[i];
            let id = match as_string(get_member(edge, "_id")) {
                Some(s) => String::from_str(s),
                None => String::new(),
            };
            let mut label = match as_string(get_member(edge, "name")) {
                Some(s) => String::from_str(s),
                None => String::new(),
            };
            label.append(" (");
            let episodes = text_of(get_member(edge, "availableEpisodes"));
            label.append(episodes.as_str());
            label.append(" episodes)");
            assert(label@ == search_label(items@[i as int]));
            found.push((id, label));
            i = i + 1;
        }
    }
    found
}

/// The episodes of a show for a translation `mode` (such as `sub`): the
/// strings listed under `data.show.availableEpisodesDetail[mode]`, in
/// order; other elements are skipped.
pub fn episode_list(doc: &JsonValue, mode: &str) -> (res: Vec<String>)
    ensures
        res@.map_values(|e: String| e@) == string_items(episode_items(*doc, mode@)),
        array_items(member_of(member_of(member_of(member(*doc, "data"@), "show"@), "availableEpisodesDetail"@), mode@)) is None ==> res@.len() == 0,
        array_items(member_of(member_of(member_of(member(*doc, "data"@), "show"@), "availableEpisodesDetail"@), mode@)) matches Some(items) ==> res@.map_values(|e: String| e@) == string_items(items),
{
    let mut episodes: Vec<String> = Vec::new();
    let data = get_member(doc, "data");
    let show = get_member_of(data, "show");
    let detail = get_member_of(show, "availableEpisodesDetail");
    let listed = get_member_of(detail, mode);
    match as_items(listed) {
        Some(items) => {
            let mut i: usize = 0;
            assert(items@.skip(0) =~= items@);
            while i < items.len()
                invariant
                    i <= items.len(),
                    items@ == episode_items(*doc, mode@),
                    string_items(items@) == episodes@.map_values(|e: String| e@) + string_items(
                        items@.skip(i as int),
                    ),
                decreases items.len() - i,
            {
                let ghost before = episodes@.map_values(|e: String| e@);
                let ghost rest = items@.skip(i as int);
                assert(rest[0] == items@[i as int]);
                assert(rest.drop_first() =~= items@.skip(i + 1));
                if let Some(s) = as_string(Some(&items[i])) {
                    episodes.push(String::from_str(s));
                    assert(episodes@.map_values(|e: String| e@) =~= before.push(s@));
                    assert(before + string_items(rest) =~= episodes@.map_values(|e: String| e@)
                        + string_items(items@.skip(i + 1)));
                }
                i = i + 1;
            }
            assert(items@.skip(i as int) =~= Seq::<JsonValue>::empty());
            assert(episodes@.map_values(|e: String| e@) + string_items(items@.skip(i as int))
                =~= episodes@.map_values(|e: String| e@));
        },
        None => {
            assert(episodes@.map_values(|e: String| e@) =~= Seq::<Seq<char>>::empty());
        },
    }
    episodes
}

/// The usable sources of an episode: for each entry under
/// `data.episode.sourceUrls` that names a source (`sourceName`) and a path
/// (`sourceUrl`), the source that `ProvideUrl::new` keeps, in order.
pub fn source_urls(doc: &JsonValue) -> (res: Vec<ProvideUrl>)
    ensures
        res@.map_values(|p: ProvideUrl| p@) == kept_sources(source_items(*doc)),
        array_items(member_of(member_of(member(*doc, "data"@), "episode"@), "sourceUrls"@)) is None ==> res@.len() == 0,
        array_items(member_of(member_of(member(*doc, "data"@), "episode"@), "sourceUrls"@)) matches Some(items) ==> res@.map_values(|p: ProvideUrl| p@) == kept_sources(items),
{
    let mut sources: Vec<ProvideUrl> = Vec::new();
    let data = get_member(doc, "data");
    let episode = get_member_of(data, "episode");
    let listed = get_member_of(episode, "sourceUrls");
    match as_items(listed) {
        Some(items) => {
            let mut i: usize = 0;
            assert(items@.skip(0) =~= items@);
            while i < items.len()
                invariant
                    i <= items.len(),
                    items@ == source_items(*doc),
                    kept_sources(items@) == sources@.map_values(|p: ProvideUrl| p@)
                        + kept_sources(items@.skip(i as int)),
                decreases items.len() - i,
            {
                let ghost before = sources@.map_values(|p: ProvideUrl| p@);
                let ghost rest = items@.skip(i as int);
                assert(rest[0] == items@[i as int]);
                assert(rest.drop_first() =~= items@.skip(i + 1));
                let entry = &items[i];
                let name = as_string(get_member(entry, "sourceName"));
                let url = as_string(get_member(entry, "sourceUrl"));
                match (name, url) {
                    (Some(name), Some(url)) => {
                        match ProvideUrl::new(String::from_str(name), String::from_str(url)) {
                            Some(p) => {
                                sources.push(p);
                                assert(sources@.map_values(|p: ProvideUrl| p@) =~= before.push(
                                    source_of(items@[i as int])->0,
                                ));
                            },
                            None => {},
                        }
                    },
                    _ => {},
                }
                assert(before + kept_sources(rest) =~= sources@.map_values(|p: ProvideUrl| p@)
                    + kept_sources(items@.skip(i + 1)));
                i = i + 1;
            }
            assert(items@.skip(i as int) =~= Seq::<JsonValue>::empty());
            assert(sources@.map_values(|p: ProvideUrl| p@) + kept_sources(items@.skip(i as int))
                =~= sources@.map_values(|p: ProvideUrl| p@));
        },
        None => {
            assert(sources@.map_values(|p: ProvideUrl| p@) =~= Seq::<ProvideUrlView>::empty());
        },
    }
    sources
}

/// Reads the document of a reply, or says why it cannot be read.
fn read_reply(text: &str) -> (res: Result<JsonValue, ApiError>)
    ensures
        res is Err <==> json_document(text@) is None,
        res matches Ok(doc) ==> json_document(text@) == Some(doc),
{
    match parse_json(text) {
        Ok(doc) => Ok(doc),
        Err(e) => Err(ApiError::Json(e)),
    }
}

/// The results of a search reply given as text; an error when the text
/// is not JSON.
pub fn parse_search_reply(text: &str) -> (res: Result<Vec<(String, String)>, ApiError>)
    ensures
        res is Err <==> json_document(text@) is None,
        json_document(text@) matches Some(doc) ==> res matches Ok(found) && lists_search_results(
            found@,
            doc,
        ),
        json_document(text@) matches Some(doc) ==> (res matches Ok(found) && (array_items(member_of(member_of(member(doc, "data"@), "shows"@), "edges"@)) matches Some(
            edges,
        ) ==> found@.len() == edges.len())),
{
    let doc = read_reply(text)?;
    Ok(search_results(&doc))
}

/// The episodes for a translation `mode` of an episodes reply given as
/// text; an error when the text is not JSON.
pub fn parse_episodes_reply(text: &str, mode: &str) -> (res: Result<Vec<String>, ApiError>)
    ensures
        res is Err <==> json_document(text@) is None,
        json_document(text@) matches Some(doc) ==> res matches Ok(episodes)
            && episodes@.map_values(|e: String| e@) == string_items(episode_items(doc, mode@)),
{
    let doc = read_reply(text)?;
    Ok(episode_list(&doc, mode))
}

/// The usable sources of an episode reply given as text; an error when the
/// text is not JSON.
pub fn parse_sources_reply(text: &str) -> (res: Result<Vec<ProvideUrl>, ApiError>)
    ensures
        res is Err <==> json_document(text@) is None,
        json_document(text@) matches Some(doc) ==> res matches Ok(sources)
            && sources@.map_values(|p: ProvideUrl| p@) == kept_sources(source_items(doc)),
{
    let doc = read_reply(text)?;
    Ok(source_urls(&doc))
}

/// No source that an episode reply yields keeps two dashes in a row in
/// its path.
pub proof fn lemma_listed_sources_have_no_double_dash(items: Seq<JsonValue>)
    ensures
        forall|i: int|
            0 <= i < kept_sources(items).len() ==> !contains(
                #[trigger] kept_sources(items)[i].url,
                double_dash(),
            ),
    decreases items.len(),
{
    if items.len() > 0 {
        let rest = items.drop_first();
        lemma_listed_sources_have_no_double_dash(rest);
        match source_of(items[0]) {
            Some(p) => {
                let url = string_value(member(items[0], "sourceUrl"@))->0;
                lemma_kept_url_has_no_double_dash(url);
                let all = kept_sources(items);
                assert(all =~= seq![p] + kept_sources(rest));
                assert forall|i: int| 0 <= i < all.len() implies !contains(
                    #[trigger] all[i].url,
                    double_dash(),
                ) by {
                    if i > 0 {
                        assert(all[i] == kept_sources(rest)[i - 1]);
                    }
                }
            },
            None => {},
        }
    }
}

/// When every element of a list is a string, the episodes are all of
/// them, in the list's order.
pub proof fn lemma_string_items_keep_all_strings(items: Seq<JsonValue>)
    requires
        forall|i: int| 0 <= i < items.len() ==> (#[trigger] string_value(Some(items[i]))) is Some,
    ensures
        string_items(items).len() == items.len(),
        forall|i: int|
            0 <= i < items.len() ==> #[trigger] string_items(items)[i] == string_value(
                Some(items[i]),
            )->0,
    decreases items.len(),
{
    if items.len() > 0 {
        let rest = items.drop_first();
        assert forall|i: int| 0 <= i < rest.len() implies (#[trigger] string_value(
            Some(rest[i]),
        )) is Some by {
            assert(rest[i] == items[i + 1]);
            assert(string_value(Some(items[i + 1])) is Some);
        }
        lemma_string_items_keep_all_strings(rest);
        assert(string_value(Some(items[0])) is Some);
        let all = string_items(items);
        assert(all =~= seq![string_value(Some(items[0]))->0] + string_items(rest));
        assert forall|i: int| 0 <= i < items.len() implies #[trigger] all[i] == string_value(
            Some(items[i]),
        )->0 by {
            if i > 0 {
                assert(all[i] == string_items(rest)[i - 1]);
                assert(rest[i - 1] == items[i]);
            }
        }
    }
}

/// When every entry names a source and a kept path, the sources are one
/// per entry, in order: the entry's path as `ProvideUrl::new` keeps it and
/// the provider of the entry's name.
pub proof fn lemma_kept_sources_keep_all_usable(items: Seq<JsonValue>)
    requires
        forall|i: int|
            0 <= i < items.len() ==> (#[trigger] string_value(member(items[i], "sourceName"@)))
                is Some,
        forall|i: int|
            0 <= i < items.len() ==> ((#[trigger] string_value(member(items[i], "sourceUrl"@)))
                matches Some(url) && accepted_url(url) is Some),
    ensures
        kept_sources(items).len() == items.len(),
        forall|i: int|
            0 <= i < items.len() ==> (#[trigger] kept_sources(items)[i]) == (ProvideUrlView {
                provider: provider_named(string_value(member(items[i], "sourceName"@))->0),
                url: accepted_url(string_value(member(items[i], "sourceUrl"@))->0)->0,
            }),
    decreases items.len(),
{
    if items.len() > 0 {
        let rest = items.drop_first();
        assert forall|i: int| 0 <= i < rest.len() implies (#[trigger] string_value(
            member(rest[i], "sourceName"@),
        )) is Some by {
            assert(rest[i] == items[i + 1]);
            assert(string_value(member(items[i + 1], "sourceName"@)) is Some);
        }
        assert forall|i: int| 0 <= i < rest.len() implies (#[trigger] string_value(
            member(rest[i], "sourceUrl"@),
        )) matches Some(url) && accepted_url(url) is Some by {
            assert(rest[i] == items[i + 1]);
            assert(string_value(member(items[i + 1], "sourceUrl"@)) matches Some(url)
                && accepted_url(url) is Some);
        }
        lemma_kept_sources_keep_all_usable(rest);
        assert(string_value(member(items[0], "sourceName"@)) is Some);
        assert(string_value(member(items[0], "sourceUrl"@)) matches Some(url) && accepted_url(url)
            is Some);
        let all = kept_sources(items);
        assert(all =~= seq![source_of(items[0])->0] + kept_sources(rest));
        assert forall|i: int| 0 <= i < items.len() implies (#[trigger] all[i]) == (ProvideUrlView {
            provider: provider_named(string_value(member(items[i], "sourceName"@))->0),
            url: accepted_url(string_value(member(items[i], "sourceUrl"@))->0)->0,
        }) by {
            if i > 0 {
                assert(all[i] == kept_sources(rest)[i - 1]);
                assert(rest[i - 1] == items[i]);
            }
        }
    }
}

} // verus!
