use tachidesk::api::{Manga, Source};
use tachidesk::model::{Message, Model};
use tachidesk::view::{Refresh, ThumbnailRequest, View, FIRST_PAGE};

fn source(id: &str, lang: &str, display_name: &str) -> Source {
    Source {
        id: id.to_string(),
        name: display_name.to_string(),
        lang: lang.to_string(),
        icon_url: String::new(),
        supports_latest: true,
        is_configurable: false,
        is_nsfw: false,
        display_name: display_name.to_string(),
    }
}

fn manga(id: u16) -> Manga {
    Manga {
        id,
        source_id: "1".to_string(),
        url: format!("/manga/{}", id),
        title: format!("Title {}", id),
        thumbnail_url: String::new(),
        initialized: true,
        artist: None,
        author: Some("Author".to_string()),
        description: None,
        genre: vec!["Action".to_string()],
        status: "ONGOING".to_string(),
        in_library: false,
        in_library_at: 0,
        source: None,
        real_url: None,
        fresh_data: false,
    }
}

fn sources() -> Vec<Source> {
    vec![
        source("1", "en", "MangaDex (EN)"),
        source("2", "fr", "Scan FR"),
        source("3", "en", "Local source"),
        source("4", "EN", "Upper case language"),
    ]
}

#[test]
fn new_model_holds_nothing() {
    let model = Model::new();
    assert!(model.source_list().is_none());
    assert!(model.manga_list().is_none());
}

#[test]
fn update_moves_the_source_list_into_the_model() {
    let mut model = Model::new();
    let mut msg = Message::SourceList(Some(sources()));
    model.update(&mut msg);
    let stored = model.source_list().expect("stored");
    assert_eq!(stored.len(), 4);
    assert_eq!(stored[2].id, "3");
    assert!(matches!(msg, Message::SourceList(None)));
    assert!(model.manga_list().is_none());
}

#[test]
fn update_with_empty_source_list_message_clears_it() {
    let mut model = Model::new();
    let mut first = Message::SourceList(Some(sources()));
    model.update(&mut first);
    let mut second = Message::SourceList(None);
    model.update(&mut second);
    assert!(model.source_list().is_none());
}

#[test]
fn update_ignores_other_messages() {
    let mut model = Model::new();
    let mut msg = Message::MangaList(Some(vec![manga(1)]));
    model.update(&mut msg);
    assert!(model.manga_list().is_none());
    assert!(model.source_list().is_none());
    match msg {
        Message::MangaList(Some(list)) => assert_eq!(list.len(), 1),
        _ => panic!("message changed"),
    }
    let mut thumb = Message::Thumbnail(Some(vec![1, 2, 3]), 4);
    model.update(&mut thumb);
    match thumb {
        Message::Thumbnail(Some(bytes), 4) => assert_eq!(bytes, vec![1, 2, 3]),
        _ => panic!("message changed"),
    }
    let mut side = Message::Sidebar(3);
    model.update(&mut side);
    assert!(matches!(side, Message::Sidebar(3)));
}

#[test]
fn refresh_after_update_shows_english_sources_in_order() {
    let mut model = Model::new();
    let mut view = View::new();
    let mut msg = Message::SourceList(Some(sources()));
    model.update(&mut msg);
    match view.refresh(&msg, &model) {
        Refresh::AddSidebarPages(pages) => {
            let got: Vec<(String, String)> =
                pages.into_iter().map(|p| (p.name, p.title)).collect();
            assert_eq!(
                got,
                vec![
                    ("1".to_string(), "MangaDex (EN)".to_string()),
                    ("3".to_string(), "Local source".to_string()),
                ]
            );
        }
        _ => panic!("expected sidebar pages"),
    }
}

#[test]
fn refresh_with_no_english_source_adds_no_page() {
    let mut model = Model::new();
    let mut view = View::new();
    let mut msg = Message::SourceList(Some(vec![source("9", "de", "Deutsch")]));
    model.update(&mut msg);
    match view.refresh(&msg, &model) {
        Refresh::AddSidebarPages(pages) => assert!(pages.is_empty()),
        _ => panic!("expected sidebar pages"),
    }
}

#[test]
fn refresh_of_manga_list_hands_out_consecutive_positions() {
    let model = Model::new();
    let mut view = View::new();
    let msg = Message::MangaList(Some(vec![manga(10), manga(20), manga(30)]));
    match view.refresh(&msg, &model) {
        Refresh::ShowMangaList(requests) => assert_eq!(
            requests,
            vec![
                ThumbnailRequest { manga_id: 10, index: 0 },
                ThumbnailRequest { manga_id: 20, index: 1 },
                ThumbnailRequest { manga_id: 30, index: 2 },
            ]
        ),
        _ => panic!("expected a manga list"),
    }
}

#[test]
fn second_manga_list_continues_after_the_first() {
    let model = Model::new();
    let mut view = View::new();
    let first = Message::MangaList(Some(vec![manga(1), manga(2)]));
    let second = Message::MangaList(Some(vec![manga(3)]));
    let _ = view.refresh(&first, &model);
    match view.refresh(&second, &model) {
        Refresh::ShowMangaList(requests) => {
            assert_eq!(requests, vec![ThumbnailRequest { manga_id: 3, index: 2 }])
        }
        _ => panic!("expected a manga list"),
    }
}

#[test]
fn empty_manga_list_fetches_nothing() {
    let model = Model::new();
    let mut view = View::new();
    let msg = Message::MangaList(Some(Vec::new()));
    match view.refresh(&msg, &model) {
        Refresh::ShowMangaList(requests) => assert!(requests.is_empty()),
        _ => panic!("expected a manga list"),
    }
}

#[test]
fn refresh_of_thumbnail_targets_its_position() {
    let model = Model::new();
    let mut view = View::new();
    let msg = Message::Thumbnail(Some(vec![0x89, 0x50]), 7);
    assert!(matches!(view.refresh(&msg, &model), Refresh::SetThumbnail(7)));
}

#[test]
fn refresh_of_sidebar_message_does_nothing() {
    let model = Model::new();
    let mut view = View::new();
    assert!(matches!(view.refresh(&Message::Sidebar(1), &model), Refresh::Nothing));
}

#[test]
fn picking_a_source_asks_for_the_first_page() {
    assert_eq!(FIRST_PAGE, 1);
}

#[test]
fn after_many_updates_the_last_source_list_is_held() {
    let mut model = Model::new();
    let mut msgs = vec![
        Message::SourceList(Some(sources())),
        Message::MangaList(Some(vec![manga(1)])),
        Message::SourceList(Some(vec![source("8", "en", "Last")])),
        Message::Thumbnail(Some(vec![1]), 0),
        Message::Sidebar(2),
    ];
    for msg in msgs.iter_mut() {
        model.update(msg);
    }
    let held = model.source_list().expect("held");
    assert_eq!(held.len(), 1);
    assert_eq!(held[0].id, "8");
    assert!(model.manga_list().is_none());
}

#[test]
fn positions_over_a_run_of_refreshes_are_distinct() {
    let model = Model::new();
    let mut view = View::new();
    let msgs = vec![
        Message::MangaList(Some(vec![manga(1), manga(2)])),
        Message::Sidebar(0),
        Message::MangaList(Some(Vec::new())),
        Message::MangaList(Some(vec![manga(3), manga(4), manga(5)])),
    ];
    let mut seen: Vec<usize> = Vec::new();
    for msg in msgs.iter() {
        if let Refresh::ShowMangaList(requests) = view.refresh(msg, &model) {
            for r in requests {
                assert!(!seen.contains(&r.index));
                seen.push(r.index);
            }
        }
    }
    assert_eq!(view.manga_index(), 5);
    assert_eq!(seen, vec![0, 1, 2, 3, 4]);
}
