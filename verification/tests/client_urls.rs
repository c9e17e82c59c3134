use tachidesk::api::Client;

const SERVER: &str = "http://127.0.0.1:4567";

#[test]
fn new_client_keeps_the_server() {
    let client = Client::new(SERVER);
    assert_eq!(client.source_list_url(), "http://127.0.0.1:4567/api/v1/source/list");
}

#[test]
fn source_list_url_on_another_server() {
    let client = Client::new("https://example.org");
    assert_eq!(client.source_list_url(), "https://example.org/api/v1/source/list");
}

#[test]
fn manga_list_url_has_source_and_page() {
    let client = Client::new(SERVER);
    assert_eq!(
        client.manga_list_url("2499283573021220255", 1),
        "http://127.0.0.1:4567/api/v1/source/2499283573021220255/latest/1"
    );
    assert_eq!(
        client.manga_list_url("abc", 10),
        "http://127.0.0.1:4567/api/v1/source/abc/latest/10"
    );
}

#[test]
fn manga_url_renders_ids_in_decimal() {
    let client = Client::new(SERVER);
    assert_eq!(client.manga_url(0), "http://127.0.0.1:4567/api/v1/manga/0");
    assert_eq!(client.manga_url(7), "http://127.0.0.1:4567/api/v1/manga/7");
    assert_eq!(client.manga_url(10), "http://127.0.0.1:4567/api/v1/manga/10");
    assert_eq!(client.manga_url(309), "http://127.0.0.1:4567/api/v1/manga/309");
    assert_eq!(client.manga_url(65535), "http://127.0.0.1:4567/api/v1/manga/65535");
}

#[test]
fn manga_thumbnail_url_is_below_manga_url() {
    let client = Client::new(SERVER);
    assert_eq!(client.manga_thumbnail_url(42), "http://127.0.0.1:4567/api/v1/manga/42/thumbnail");
    assert_eq!(client.manga_thumbnail_url(42), format!("{}/thumbnail", client.manga_url(42)));
}

#[test]
fn manga_chapter_list_url_is_below_manga_url() {
    let client = Client::new(SERVER);
    assert_eq!(client.manga_chapter_list_url(100), "http://127.0.0.1:4567/api/v1/manga/100/chapters");
    assert_eq!(client.manga_chapter_list_url(100), format!("{}/chapters", client.manga_url(100)));
}

#[test]
fn manga_page_url_has_all_three_numbers() {
    let client = Client::new(SERVER);
    assert_eq!(
        client.manga_page_url(12, 3, 45),
        "http://127.0.0.1:4567/api/v1/manga/12/chapter/3/page/45"
    );
    assert_eq!(
        client.manga_page_url(65535, 0, 65535),
        "http://127.0.0.1:4567/api/v1/manga/65535/chapter/0/page/65535"
    );
}

#[test]
fn urls_match_format_for_many_ids() {
    let client = Client::new(SERVER);
    let mut id: u32 = 0;
    while id <= 65535 {
        let m = id as u16;
        assert_eq!(client.manga_url(m), format!("{}/api/v1/manga/{}", SERVER, m));
        id += 97;
    }
}

#[test]
fn distinct_manga_ids_give_distinct_addresses() {
    let client = Client::new(SERVER);
    assert_ne!(client.manga_url(1), client.manga_url(11));
    assert_ne!(client.manga_thumbnail_url(1), client.manga_chapter_list_url(1));
    assert_ne!(client.manga_page_url(1, 23, 4), client.manga_page_url(12, 3, 4));
    assert_ne!(client.manga_page_url(1, 2, 34), client.manga_page_url(1, 23, 4));
}

#[test]
fn cloned_client_builds_the_same_urls() {
    let client = Client::new(SERVER);
    let other = client.clone();
    assert_eq!(other.manga_url(5), client.manga_url(5));
}
