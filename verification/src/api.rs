//! The data a Tachidesk server answers with, and the addresses of the
//! requests that the client sends it.

use vstd::prelude::*;
use crate::decimal::{decimal, is_digit, push_decimal, lemma_decimal_injective, lemma_decimal_then_separator};

verus! {

/// An extension (a packaged source) as the server lists it.
#[derive(Debug)]
pub struct Extension {
    pub apk_name: String,
    pub icon_url: String,
    pub name: String,
    pub pkg_name: String,
    pub version_name: String,
    pub version_code: u8,
    pub lang: String,
    pub is_nsfw: bool,
    pub installed: bool,
    pub has_update: bool,
    pub obsolete: bool,
}

/// A manga source as the server lists it.
#[derive(Debug)]
pub struct Source {
    pub id: String,
    pub name: String,
    pub lang: String,
    pub icon_url: String,
    pub supports_latest: bool,
    pub is_configurable: bool,
    pub is_nsfw: bool,
    pub display_name: String,
}

/// A manga as the server describes it.
#[derive(Debug)]
pub struct Manga {
    pub id: u16,
    pub source_id: String,
    pub url: String,
    pub title: String,
    pub thumbnail_url: String,
    pub initialized: bool,
    pub artist: Option<String>,
    pub author: Option<String>,
    pub description: Option<String>,
    pub genre: Vec<String>,
    pub status: String,
    pub in_library: bool,
    pub in_library_at: u32,
    pub source: Option<Source>,
    pub real_url: Option<String>,
    pub fresh_data: bool,
}

/// One page of the latest mangas of a source.
#[derive(Debug)]
pub struct MangaList {
    pub manga_list: Vec<Manga>,
}

/// The address of the server's source list.
pub open spec fn source_list_url(server: Seq<char>) -> Seq<char> {
    server + "/api/v1/source/list"@
}

/// The address of a page of the latest mangas of a source.
pub open spec fn manga_list_url(server: Seq<char>, source_id: Seq<char>, page: nat) -> Seq<char> {
    server + "/api/v1/source/"@ + source_id + "/latest/"@ + decimal(page)
}

/// The address of a manga.
pub open spec fn manga_url(server: Seq<char>, manga_id: nat) -> Seq<char> {
    server + "/api/v1/manga/"@ + decimal(manga_id)
}

/// The address of a manga's thumbnail image.
pub open spec fn manga_thumbnail_url(server: Seq<char>, manga_id: nat) -> Seq<char> {
    server + "/api/v1/manga/"@ + decimal(manga_id) + "/thumbnail"@
}

/// The address of a manga's chapter list.
pub open spec fn manga_chapter_list_url(server: Seq<char>, manga_id: nat) -> Seq<char> {
    server + "/api/v1/manga/"@ + decimal(manga_id) + "/chapters"@
}

/// The address of one page image of a chapter of a manga.
pub open spec fn manga_page_url(server: Seq<char>, manga_id: nat, chapter: nat, page: nat) -> Seq<char> {
    server + "/api/v1/manga/"@ + decimal(manga_id) + "/chapter/"@ + decimal(chapter) + "/page/"@
        + decimal(page)
}

/// A client of the server at a fixed base address.
#[derive(Clone)]
pub struct Client {
    server: &'static str,
}

impl View for Client {
    type V = Seq<char>;

    /// The server's base address.
    closed spec fn view(&self) -> Seq<char> {
        self.server@
    }
}

impl Client {
    /// A client of the server at `server`.
    pub fn new(server: &'static str) -> (client: Self)
        ensures
            client@ == server@,
    {
        Self { server }
    }

    /// The server's base address, as a fresh string.
    fn base(&self) -> (s: String)
        ensures
            s@ == self@,
    {
        String::from_str(self.server)
    }

    /// The address of the server's source list.
    pub fn source_list_url(&self) -> (url: String)
        ensures
            url@ == source_list_url(self@),
    {
        let mut url = self.base();
        url.append("/api/v1/source/list");
        url
    }

    /// The address of page `page` of the latest mangas of the source `source_id`.
    pub fn manga_list_url(&self, source_id: &str, page: u16) -> (url: String)
        ensures
            url@ == manga_list_url(self@, source_id@, page as nat),
    {
        let mut url = self.base();
        url.append("/api/v1/source/");
        url.append(source_id);
        url.append("/latest/");
        push_decimal(&mut url, page as u64);
        url
    }

    /// The address of the manga `manga_id`.
    pub fn manga_url(&self, manga_id: u16) -> (url: String)
        ensures
            url@ == manga_url(self@, manga_id as nat),
    {
        let mut url = self.base();
        url.append("/api/v1/manga/");
        push_decimal(&mut url, manga_id as u64);
        url
    }

    /// The address of the thumbnail of the manga `manga_id`.
    pub fn manga_thumbnail_url(&self, manga_id: u16) -> (url: String)
        ensures
            url@ == manga_thumbnail_url(self@, manga_id as nat),
    {
        let mut url = self.base();
        url.append("/api/v1/manga/");
        push_decimal(&mut url, manga_id as u64);
        url.append("/thumbnail");
        url
    }

    /// The address of the chapter list of the manga `manga_id`.
    pub fn manga_chapter_list_url(&self, manga_id: u16) -> (url: String)
        ensures
            url@ == manga_chapter_list_url(self@, manga_id as nat),
    {
        let mut url = self.base();
        url.append("/api/v1/manga/");
        push_decimal(&mut url, manga_id as u64);
        url.append("/chapters");
        url
    }

    /// The address of page `page` of chapter `chapter` of the manga `manga_id`.
    pub fn manga_page_url(&self, manga_id: u16, chapter: u16, page: u16) -> (url: String)
        ensures
            url@ == manga_page_url(self@, manga_id as nat, chapter as nat, page as nat),
    {
        let mut url = self.base();
        url.append("/api/v1/manga/");
        push_decimal(&mut url, manga_id as u64);
        url.append("/chapter/");
        push_decimal(&mut url, chapter as u64);
        url.append("/page/");
        push_decimal(&mut url, page as u64);
        url
    }
}

/// A common beginning can be taken off two equal texts.
proof fn lemma_cancel_prefix(p: Seq<char>, x: Seq<char>, y: Seq<char>)
    requires
        p + x == p + y,
    ensures
        x == y,
{
    assert(x =~= (p + x).subrange(p.len() as int, (p + x).len() as int));
    assert(y =~= (p + y).subrange(p.len() as int, (p + y).len() as int));
}

/// The thumbnail, the chapter list and every page of a manga are addressed
/// below the manga's own address.
pub proof fn lemma_manga_resources_below_manga_url(server: Seq<char>, manga_id: nat, chapter: nat, page: nat)
    ensures
        manga_thumbnail_url(server, manga_id) == manga_url(server, manga_id) + "/thumbnail"@,
        manga_chapter_list_url(server, manga_id) == manga_url(server, manga_id) + "/chapters"@,
        manga_page_url(server, manga_id, chapter, page) == manga_url(server, manga_id) + "/chapter/"@
            + decimal(chapter) + "/page/"@ + decimal(page),
{
    assert(manga_thumbnail_url(server, manga_id) =~= manga_url(server, manga_id) + "/thumbnail"@);
    assert(manga_chapter_list_url(server, manga_id) =~= manga_url(server, manga_id) + "/chapters"@);
    assert(manga_page_url(server, manga_id, chapter, page) =~= manga_url(server, manga_id)
        + "/chapter/"@ + decimal(chapter) + "/page/"@ + decimal(page));
}

/// Two requests for a manga, its thumbnail or its chapter list go to the same
/// address only when they ask for the same thing of the same manga.
pub proof fn lemma_manga_addresses_identify_request(server: Seq<char>, a: nat, b: nat)
    ensures
        manga_url(server, a) == manga_url(server, b) ==> a == b,
        manga_thumbnail_url(server, a) == manga_thumbnail_url(server, b) ==> a == b,
        manga_chapter_list_url(server, a) == manga_chapter_list_url(server, b) ==> a == b,
        manga_url(server, a) != manga_thumbnail_url(server, b),
        manga_url(server, a) != manga_chapter_list_url(server, b),
        manga_thumbnail_url(server, a) != manga_chapter_list_url(server, b),
{
    reveal_strlit("/thumbnail");
    reveal_strlit("/chapters");
    let pre = server + "/api/v1/manga/"@;
    let th = "/thumbnail"@;
    let ch = "/chapters"@;
    assert(th[0] == '/' && !is_digit(th[0]));
    assert(ch[0] == '/' && !is_digit(ch[0]));
    assert(th != ch) by {
        assert(th[1] != ch[1]);
    }
    assert(manga_url(server, a) == pre + decimal(a));
    assert(manga_thumbnail_url(server, a) =~= pre + (decimal(a) + th));
    assert(manga_thumbnail_url(server, b) =~= pre + (decimal(b) + th));
    assert(manga_chapter_list_url(server, a) =~= pre + (decimal(a) + ch));
    assert(manga_chapter_list_url(server, b) =~= pre + (decimal(b) + ch));
    if manga_url(server, a) == manga_url(server, b) {
        lemma_cancel_prefix(pre, decimal(a), decimal(b));
        lemma_decimal_injective(a, b);
    }
    if manga_thumbnail_url(server, a) == manga_thumbnail_url(server, b) {
        lemma_cancel_prefix(pre, decimal(a) + th, decimal(b) + th);
        lemma_decimal_then_separator(a, b, th, th);
    }
    if manga_chapter_list_url(server, a) == manga_chapter_list_url(server, b) {
        lemma_cancel_prefix(pre, decimal(a) + ch, decimal(b) + ch);
        lemma_decimal_then_separator(a, b, ch, ch);
    }
    if manga_thumbnail_url(server, a) == manga_chapter_list_url(server, b) {
        lemma_cancel_prefix(pre, decimal(a) + th, decimal(b) + ch);
        lemma_decimal_then_separator(a, b, th, ch);
    }
    if manga_url(server, a) == manga_thumbnail_url(server, b) {
        lemma_cancel_prefix(pre, decimal(a), decimal(b) + th);
        lemma_digits_then_separator_differ(a, b, th);
    }
    if manga_url(server, a) == manga_chapter_list_url(server, b) {
        lemma_cancel_prefix(pre, decimal(a), decimal(b) + ch);
        lemma_digits_then_separator_differ(a, b, ch);
    }
}

/// A bare decimal rendering never equals a rendering followed by text that
/// starts with a non-digit.
proof fn lemma_digits_then_separator_differ(a: nat, b: nat, x: Seq<char>)
    requires
        x.len() > 0,
        !is_digit(x[0]),
    ensures
        decimal(a) != decimal(b) + x,
{
    crate::decimal::lemma_decimal_digits(a);
    crate::decimal::lemma_decimal_digits(b);
    if decimal(a) == decimal(b) + x {
        let i = decimal(b).len() as int;
        assert((decimal(b) + x)[i] == x[0]);
        assert(is_digit(decimal(a)[i]));
    }
}

/// A number written after a common beginning and before text that starts
/// with a non-digit can be read back, and so can the text after it.
proof fn lemma_read_number(pre: Seq<char>, a: nat, b: nat, x: Seq<char>, y: Seq<char>)
    requires
        pre + (decimal(a) + x) == pre + (decimal(b) + y),
        x.len() > 0,
        y.len() > 0,
        !is_digit(x[0]),
        !is_digit(y[0]),
    ensures
        a == b,
        x == y,
{
    lemma_cancel_prefix(pre, decimal(a) + x, decimal(b) + y);
    lemma_decimal_then_separator(a, b, x, y);
}

/// Regrouping of a text made of seven parts, written left to right, into
/// its first two parts followed by the rest grouped to the right.
proof fn lemma_regroup_seven(
    a: Seq<char>,
    b: Seq<char>,
    c: Seq<char>,
    d: Seq<char>,
    e: Seq<char>,
    f: Seq<char>,
    g: Seq<char>,
)
    ensures
        a + b + c + d + e + f + g == (a + b) + (c + (d + (e + (f + g)))),
{
    assert(a + b + c + d + e + f + g =~= (a + b) + (c + (d + (e + (f + g)))));
}

/// A text that starts with `/` still does when more text follows it.
proof fn lemma_slash_first(x: Seq<char>, y: Seq<char>)
    requires
        x.len() > 0,
        x[0] == '/',
    ensures
        (x + y).len() > 0,
        (x + y)[0] == '/',
        !is_digit((x + y)[0]),
{
}

/// Two requests for a page of a chapter go to the same address only when they
/// ask for the same page of the same chapter of the same manga.
pub proof fn lemma_manga_page_url_identifies_page(
    server: Seq<char>,
    manga_a: nat,
    chapter_a: nat,
    page_a: nat,
    manga_b: nat,
    chapter_b: nat,
    page_b: nat,
)
    requires
        manga_page_url(server, manga_a, chapter_a, page_a) == manga_page_url(server, manga_b, chapter_b, page_b),
    ensures
        manga_a == manga_b,
        chapter_a == chapter_b,
        page_a == page_b,
{
    let api = "/api/v1/manga/"@;
    let c = "/chapter/"@;
    let p = "/page/"@;
    assert(c.len() > 0 && c[0] == '/') by { reveal_strlit("/chapter/"); }
    assert(p.len() > 0 && p[0] == '/') by { reveal_strlit("/page/"); }
    let rest_a = p + decimal(page_a);
    let rest_b = p + decimal(page_b);
    let tail_a = c + (decimal(chapter_a) + rest_a);
    let tail_b = c + (decimal(chapter_b) + rest_b);
    lemma_slash_first(p, decimal(page_a));
    lemma_slash_first(p, decimal(page_b));
    lemma_slash_first(c, decimal(chapter_a) + rest_a);
    lemma_slash_first(c, decimal(chapter_b) + rest_b);
    lemma_regroup_seven(server, api, decimal(manga_a), c, decimal(chapter_a), p, decimal(page_a));
    lemma_regroup_seven(server, api, decimal(manga_b), c, decimal(chapter_b), p, decimal(page_b));
    lemma_read_number(server + api, manga_a, manga_b, tail_a, tail_b);
    lemma_read_number(c, chapter_a, chapter_b, rest_a, rest_b);
    lemma_cancel_prefix(p, decimal(page_a), decimal(page_b));
    lemma_decimal_injective(page_a, page_b);
}

/// Two requests for the latest mangas of one source go to the same address
/// only when they ask for the same page.
pub proof fn lemma_manga_list_url_identifies_page(server: Seq<char>, source_id: Seq<char>, page_a: nat, page_b: nat)
    requires
        manga_list_url(server, source_id, page_a) == manga_list_url(server, source_id, page_b),
    ensures
        page_a == page_b,
{
    let pre = server + "/api/v1/source/"@ + source_id + "/latest/"@;
    lemma_cancel_prefix(pre, decimal(page_a), decimal(page_b));
    lemma_decimal_injective(page_a, page_b);
}

/// Every address is the client's own server followed by a path, and the path
/// is the same whatever the server: the request goes to the server the client
/// was made for, and only the server part differs between two clients.
pub proof fn lemma_addresses_start_with_server(
    server: Seq<char>,
    source_id: Seq<char>,
    manga_id: nat,
    chapter: nat,
    page: nat,
)
    ensures
        source_list_url(server) == server + source_list_url(Seq::empty()),
        manga_list_url(server, source_id, page) == server + manga_list_url(Seq::empty(), source_id, page),
        manga_url(server, manga_id) == server + manga_url(Seq::empty(), manga_id),
        manga_thumbnail_url(server, manga_id) == server + manga_thumbnail_url(Seq::empty(), manga_id),
        manga_chapter_list_url(server, manga_id) == server + manga_chapter_list_url(Seq::empty(), manga_id),
        manga_page_url(server, manga_id, chapter, page) == server + manga_page_url(Seq::empty(), manga_id, chapter, page),
        source_list_url(server).subrange(0, server.len() as int) == server,
        manga_list_url(server, source_id, page).subrange(0, server.len() as int) == server,
        manga_url(server, manga_id).subrange(0, server.len() as int) == server,
        manga_thumbnail_url(server, manga_id).subrange(0, server.len() as int) == server,
        manga_chapter_list_url(server, manga_id).subrange(0, server.len() as int) == server,
        manga_page_url(server, manga_id, chapter, page).subrange(0, server.len() as int) == server,
{
    let e = Seq::<char>::empty();
    assert(source_list_url(server) =~= server + source_list_url(e));
    assert(manga_list_url(server, source_id, page) =~= server + manga_list_url(e, source_id, page));
    assert(manga_url(server, manga_id) =~= server + manga_url(e, manga_id));
    assert(manga_thumbnail_url(server, manga_id) =~= server + manga_thumbnail_url(e, manga_id));
    assert(manga_chapter_list_url(server, manga_id) =~= server + manga_chapter_list_url(e, manga_id));
    assert(manga_page_url(server, manga_id, chapter, page) =~= server + manga_page_url(e, manga_id, chapter, page));
    lemma_prefix_of_join(server, source_list_url(e));
    lemma_prefix_of_join(server, manga_list_url(e, source_id, page));
    lemma_prefix_of_join(server, manga_url(e, manga_id));
    lemma_prefix_of_join(server, manga_thumbnail_url(e, manga_id));
    lemma_prefix_of_join(server, manga_chapter_list_url(e, manga_id));
    lemma_prefix_of_join(server, manga_page_url(e, manga_id, chapter, page));
}

/// The first part of a joined text is its beginning.
proof fn lemma_prefix_of_join(a: Seq<char>, b: Seq<char>)
    ensures
        (a + b).subrange(0, a.len() as int) == a,
{
    assert((a + b).subrange(0, a.len() as int) =~= a);
}

/// The path of each address, after the server: the fixed REST route with the
/// request's source id and numbers written in decimal where the route has them.
pub proof fn lemma_address_paths(source_id: Seq<char>, manga_id: nat, chapter: nat, page: nat)
    ensures
        source_list_url(Seq::empty()) == "/api/v1/source/list"@,
        manga_list_url(Seq::empty(), source_id, page) == "/api/v1/source/"@ + source_id + "/latest/"@ + decimal(page),
        manga_url(Seq::empty(), manga_id) == "/api/v1/manga/"@ + decimal(manga_id),
        manga_thumbnail_url(Seq::empty(), manga_id) == "/api/v1/manga/"@ + decimal(manga_id) + "/thumbnail"@,
        manga_chapter_list_url(Seq::empty(), manga_id) == "/api/v1/manga/"@ + decimal(manga_id) + "/chapters"@,
        manga_page_url(Seq::empty(), manga_id, chapter, page) == "/api/v1/manga/"@ + decimal(manga_id) + "/chapter/"@
            + decimal(chapter) + "/page/"@ + decimal(page),
{
    let e = Seq::<char>::empty();
    assert(e + "/api/v1/source/list"@ =~= "/api/v1/source/list"@);
    assert(e + "/api/v1/source/"@ =~= "/api/v1/source/"@);
    assert(e + "/api/v1/manga/"@ =~= "/api/v1/manga/"@);
}

} // verus!
