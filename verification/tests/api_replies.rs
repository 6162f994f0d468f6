use anistream::api::{parse_episodes_reply, parse_search_reply, parse_sources_reply, ApiError};
use anistream::provider::Provider;

const SEARCH: &str = r#"{"data":{"shows":{"edges":[
    {"_id":"ReooPAxPMsHM4KPMY","name":"One Piece","availableEpisodes":{"sub":1100,"dub":1085,"raw":0},"__typename":"Show"},
    {"name":"No Id","availableEpisodes":null},
    {"_id":5}
]}}}"#;

#[test]
fn search_reply_lists_every_show_in_order() {
    let found = parse_search_reply(SEARCH).unwrap();
    assert_eq!(
        found,
        vec![
            (
                "ReooPAxPMsHM4KPMY".to_string(),
                r#"One Piece ({"dub":1085,"raw":0,"sub":1100} episodes)"#.to_string()
            ),
            ("".to_string(), "No Id (null episodes)".to_string()),
            ("".to_string(), " (null episodes)".to_string()),
        ]
    );
}

#[test]
fn search_reply_episode_count_is_json_text() {
    let found =
        parse_search_reply(r#"{"data":{"shows":{"edges":[{"_id":"a","name":"n","availableEpisodes":12}]}}}"#)
            .unwrap();
    assert_eq!(found, vec![("a".to_string(), "n (12 episodes)".to_string())]);
    let found = parse_search_reply(
        r#"{"data":{"shows":{"edges":[{"_id":"a","name":"n","availableEpisodes":"x\"y"}]}}}"#,
    )
    .unwrap();
    assert_eq!(found[0].1, r#"n ("x\"y" episodes)"#);
}

#[test]
fn search_reply_without_edges_is_empty() {
    assert!(parse_search_reply(r#"{"data":null}"#).unwrap().is_empty());
    assert!(parse_search_reply(r#"{"data":{"shows":{"edges":{}}}}"#).unwrap().is_empty());
    assert!(parse_search_reply("[1,2]").unwrap().is_empty());
}

#[test]
fn reply_that_is_not_json_is_an_error() {
    assert!(matches!(parse_search_reply("<html>"), Err(ApiError::Json(_))));
    assert!(matches!(parse_episodes_reply("{", "sub"), Err(ApiError::Json(_))));
    assert!(matches!(parse_sources_reply("{} trailing"), Err(ApiError::Json(_))));
}

const EPISODES: &str = r#"{"data":{"show":{"_id":"x","availableEpisodesDetail":{
    "sub":["3","2",1,"1",null],
    "dub":["1"],
    "raw":[]
}}}}"#;

#[test]
fn episodes_reply_keeps_the_strings_of_the_mode() {
    assert_eq!(parse_episodes_reply(EPISODES, "sub").unwrap(), vec!["3", "2", "1"]);
    assert_eq!(parse_episodes_reply(EPISODES, "dub").unwrap(), vec!["1"]);
    assert!(parse_episodes_reply(EPISODES, "raw").unwrap().is_empty());
    assert!(parse_episodes_reply(EPISODES, "none").unwrap().is_empty());
}

const SOURCES: &str = r#"{"data":{"episode":{"episodeString":"1","sourceUrls":[
    {"sourceName":"Sak","sourceUrl":"--175948514e4c4f57"},
    {"sourceName":"Yt-mp4","sourceUrl":"https://example.org/video.mp4"},
    {"sourceName":"Luf-mp4","sourceUrl":"--5b54575b53"},
    {"sourceName":"Default","sourceUrl":"/apivtwo/clock?id=1"},
    {"sourceName":"NoUrl"},
    {"sourceUrl":"--00"}
]}}}"#;

#[test]
fn sources_reply_keeps_usable_sources_in_order() {
    let sources = parse_sources_reply(SOURCES).unwrap();
    let got: Vec<(Provider, &str)> = sources.iter().map(|p| (p.provider(), p.url())).collect();
    assert_eq!(
        got,
        vec![
            (Provider::Dropbox, "175948514e4c4f57"),
            (Provider::Gogoanime, "5b54575b53"),
            (Provider::Other, "/apivtwo/clock?id=1"),
        ]
    );
}

#[test]
fn sources_reply_without_list_is_empty() {
    assert!(parse_sources_reply(r#"{"data":{"episode":null}}"#).unwrap().is_empty());
}
