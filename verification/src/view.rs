//! The decisions of the reader window: which sources go into the sidebar,
//! which thumbnails to fetch for a list of mangas, and where each one goes.

use vstd::prelude::*;
use crate::api;
use crate::model::{after_update, updated_sources, Message, Model};
use vstd::view::View as _;

verus! {

/// The page of latest mangas that is fetched when a source is picked.
pub const FIRST_PAGE: u16 = 1;

/// A page of the sidebar: a source, named by its id and titled by its
/// display name.
pub struct SidebarPage {
    pub name: String,
    pub title: String,
}

/// A thumbnail to fetch: that of the manga `manga_id`, for the grid cell
/// at `index`.
#[derive(Clone, Copy, PartialEq, Eq, Structural, Debug)]
pub struct ThumbnailRequest {
    pub manga_id: u16,
    pub index: usize,
}

/// What the window does for a message.
pub enum Refresh {
    /// Add these pages, in order, to the sidebar.
    AddSidebarPages(Vec<SidebarPage>),
    /// Start a fresh grid with one waiting cell per manga, in order, and
    /// fetch these thumbnails.
    ShowMangaList(Vec<ThumbnailRequest>),
    /// Put the message's thumbnail image into the grid cell at this index.
    SetThumbnail(usize),
    /// Nothing to do.
    Nothing,
}

/// Whether a source is in English, the one language the sidebar shows.
pub open spec fn is_english(source: api::Source) -> bool {
    source.lang@ == "en"@
}

/// The sidebar pages for a list of sources: one per English source, in
/// order, as (name, title).
pub open spec fn sidebar_pages(sources: Seq<api::Source>) -> Seq<(Seq<char>, Seq<char>)> {
    sources.filter(|s: api::Source| is_english(s)).map_values(|s: api::Source| (s.id@, s.display_name@))
}

/// The (name, title) pairs of a list of sidebar pages.
pub open spec fn pages_view(pages: Seq<SidebarPage>) -> Seq<(Seq<char>, Seq<char>)> {
    pages.map_values(|p: SidebarPage| (p.name@, p.title@))
}

/// The thumbnails to fetch for `mangas` when the grid positions handed out so
/// far are those below `first`: the i-th manga's, for position `first + i`.
pub open spec fn thumbnail_requests(mangas: Seq<api::Manga>, first: int) -> Seq<(u16, int)> {
    Seq::new(mangas.len(), |i: int| (mangas[i].id, first + i))
}

/// The (manga, position) pairs of a list of thumbnail requests.
pub open spec fn requests_view(requests: Seq<ThumbnailRequest>) -> Seq<(u16, int)> {
    requests.map_values(|r: ThumbnailRequest| (r.manga_id, r.index as int))
}

/// The mangas that a message lists (none, for any other message than a
/// manga list that carries its list).
pub open spec fn listed_mangas(msg: Message) -> Seq<api::Manga> {
    match msg {
        Message::MangaList(Some(list)) => list@,
        _ => seq![],
    }
}

/// How many grid positions a message hands out.
pub open spec fn manga_count(msg: Message) -> nat {
    listed_mangas(msg).len()
}

/// Whether the view can handle `msg` with `model`: the source list has
/// arrived, and a manga list or a thumbnail message carries its data.
pub open spec fn can_refresh(msg: Message, model: Model) -> bool {
    match msg {
        Message::SourceList(_) => model.sources() is Some,
        Message::MangaList(list) => list is Some,
        Message::Thumbnail(bytes, _) => bytes is Some,
        Message::Sidebar(_) => true,
    }
}

/// Whether `action` is what the view does for `msg` with `model` when the
/// grid positions below `first` are handed out.
pub open spec fn refreshes(action: Refresh, first: nat, msg: Message, model: Model) -> bool {
    match msg {
        Message::SourceList(_) => action matches Refresh::AddSidebarPages(pages)
            && pages_view(pages@) == sidebar_pages(model.sources()->0@),
        Message::MangaList(list) => action matches Refresh::ShowMangaList(requests)
            && requests_view(requests@) == thumbnail_requests(list->0@, first as int),
        Message::Thumbnail(_, index) => action == Refresh::SetThumbnail(index),
        Message::Sidebar(_) => action == Refresh::Nothing,
    }
}

/// The window's own state: how many grid positions it has handed out.
pub struct View {
    manga_index: usize,
}

impl View {
    /// The number of grid positions handed out so far.
    pub closed spec fn positions_handed_out(&self) -> nat {
        self.manga_index as nat
    }

    /// The number of grid positions handed out so far.
    pub fn manga_index(&self) -> (n: usize)
        ensures
            n == self.positions_handed_out(),
    {
        self.manga_index
    }

    /// A window that has handed out no grid position.
    pub fn new() -> (view: Self)
        ensures
            view.positions_handed_out() == 0,
    {
        Self { manga_index: 0 }
    }

    /// Decides what the window does for `msg`. A source list shows the
    /// English sources that the model holds; a manga list asks for one
    /// thumbnail per manga, at the next grid positions.
    pub fn refresh(&mut self, msg: &Message, model: &Model) -> (action: Refresh)
        requires
            can_refresh(*msg, *model),
            old(self).positions_handed_out() + manga_count(*msg) <= usize::MAX,
        ensures
            refreshes(action, old(self).positions_handed_out(), *msg, *model),
            final(self).positions_handed_out() == old(self).positions_handed_out() + manga_count(*msg),
    {
        match msg {
            Message::SourceList(_) => {
                let list = model.source_list();
                match list {
                    Some(sources) => Refresh::AddSidebarPages(english_pages(sources)),
                    None => Refresh::Nothing,
                }
            },
            Message::MangaList(list) => {
                match list {
                    Some(mangas) => Refresh::ShowMangaList(self.hand_out_positions(mangas)),
                    None => Refresh::Nothing,
                }
            },
            Message::Thumbnail(_, index) => Refresh::SetThumbnail(*index),
            Message::Sidebar(_) => Refresh::Nothing,
        }
    }

    /// One thumbnail request per manga, at the next grid positions.
    fn hand_out_positions(&mut self, mangas: &Vec<api::Manga>) -> (requests: Vec<ThumbnailRequest>)
        requires
            old(self).positions_handed_out() + mangas.len() <= usize::MAX,
        ensures
            requests_view(requests@) == thumbnail_requests(mangas@, old(self).positions_handed_out() as int),
            final(self).positions_handed_out() == old(self).positions_handed_out() + mangas.len(),
    {
        let mut requests: Vec<ThumbnailRequest> = Vec::new();
        let ghost first = self.manga_index as int;
        let mut i: usize = 0;
        while i < mangas.len()
            invariant
                i <= mangas.len(),
                self.manga_index == first + i,
                first + mangas.len() <= usize::MAX,
                requests_view(requests@) =~= thumbnail_requests(mangas@.take(i as int), first),
            decreases mangas.len() - i,
        {
            let ghost before = requests@;
            let request = ThumbnailRequest { manga_id: mangas[i].id, index: self.manga_index };
            requests.push(request);
            proof {
                assert(requests@ == before.push(request));
                assert(requests_view(before).len() == before.len());
                assert(thumbnail_requests(mangas@.take(i as int), first).len() == i);
                assert(before.len() == i);
                let taken = mangas@.take(i + 1);
                assert forall|j: int| 0 <= j < i + 1 implies #[trigger] requests_view(requests@)[j]
                    == thumbnail_requests(taken, first)[j] by {
                    if j < i {
                        assert(requests@[j] == before[j]);
                        assert(requests_view(before)[j] == thumbnail_requests(mangas@.take(i as int), first)[j]);
                    }
                }
            }
            self.manga_index = self.manga_index + 1;
            i = i + 1;
            assert(requests_view(requests@) =~= thumbnail_requests(mangas@.take(i as int), first));
        }
        assert(mangas@.take(i as int) =~= mangas@);
        requests
    }
}

/// The sidebar pages of the English sources of `sources`, in order.
fn english_pages(sources: &Vec<api::Source>) -> (pages: Vec<SidebarPage>)
    ensures
        pages_view(pages@) == sidebar_pages(sources@),
{
    let en = String::from_str("en");
    let mut pages: Vec<SidebarPage> = Vec::new();
    let mut i: usize = 0;
    while i < sources.len()
        invariant
            i <= sources.len(),
            en@ == "en"@,
            pages_view(pages@) =~= sidebar_pages(sources@.take(i as int)),
        decreases sources.len() - i,
    {
        let source = &sources[i];
        let ghost before = pages@;
        let ghost prev = sources@.take(i as int);
        let ghost next = sources@.take(i + 1);
        proof {
            reveal_with_fuel(Seq::<api::Source>::filter, 1);
            assert(next.drop_last() =~= prev);
            assert(next.last() == *source);
        }
        if source.lang == en {
            let page = SidebarPage { name: source.id.clone(), title: source.display_name.clone() };
            pages.push(page);
            proof {
                assert(sidebar_pages(next) =~= sidebar_pages(prev).push((source.id@, source.display_name@)));
                assert(pages@ == before.push(page));
                assert(pages_view(pages@) =~= pages_view(before).push((page.name@, page.title@)));
            }
        } else {
            proof {
                assert(sidebar_pages(next) =~= sidebar_pages(prev));
            }
        }
        i = i + 1;
    }
    assert(sources@.take(i as int) =~= sources@);
    pages
}

/// What the model takes in from a source list is what the view then shows:
/// after the update, the message left over can be refreshed, and the sidebar
/// gets exactly the English sources of the list, in order.
pub proof fn lemma_source_list_reaches_sidebar(
    before: Model,
    after: Model,
    list: Vec<api::Source>,
    first: nat,
    action: Refresh,
)
    requires
        after.sources() == updated_sources(before.sources(), Message::SourceList(Some(list))),
    ensures
        can_refresh(after_update(Message::SourceList(Some(list))), after),
        refreshes(action, first, after_update(Message::SourceList(Some(list))), after)
            ==> (action matches Refresh::AddSidebarPages(pages) && pages_view(pages@) == sidebar_pages(list@)),
{
}

/// Grid positions are never handed out twice: the thumbnails asked for by
/// two manga lists in a row go to distinct, increasing positions.
pub proof fn lemma_grid_positions_never_reused(first: Seq<api::Manga>, second: Seq<api::Manga>, start: int)
    ensures
        forall|i: int, j: int|
            0 <= i < first.len() && 0 <= j < second.len() ==>
                #[trigger] thumbnail_requests(first, start)[i].1 < #[trigger] thumbnail_requests(second, start + first.len())[j].1,
        forall|i: int, j: int|
            0 <= i < j < first.len() ==>
                #[trigger] thumbnail_requests(first, start)[i].1 < #[trigger] thumbnail_requests(first, start)[j].1,
{
}

/// How many grid positions the messages `msgs` hand out, together.
pub open spec fn positions_for(msgs: Seq<Message>) -> nat
    decreases msgs.len(),
{
    if msgs.len() == 0 {
        0
    } else {
        positions_for(msgs.drop_last()) + manga_count(msgs.last())
    }
}

/// Whether `views` is a run of refreshes: each view's count of handed-out
/// positions is the one before it plus what the message of the same
/// position hands out, as `View::refresh` ensures.
pub open spec fn is_refresh_run(views: Seq<View>, msgs: Seq<Message>) -> bool {
    &&& views.len() == msgs.len() + 1
    &&& forall|i: int|
        0 <= i < msgs.len() ==> views[i + 1].positions_handed_out() == views[i].positions_handed_out()
            + manga_count(#[trigger] msgs[i])
}

/// Over a run of refreshes the count of handed-out positions never goes
/// down, and at the end it is the start plus what all messages hand out.
proof fn lemma_refresh_run_count(views: Seq<View>, msgs: Seq<Message>)
    requires
        is_refresh_run(views, msgs),
    ensures
        views.last().positions_handed_out() == views[0].positions_handed_out() + positions_for(msgs),
        forall|i: int, j: int|
            0 <= i <= j < views.len() ==> #[trigger] views[i].positions_handed_out()
                <= #[trigger] views[j].positions_handed_out(),
    decreases msgs.len(),
{
    if msgs.len() > 0 {
        let n = msgs.len() - 1;
        let shorter = views.drop_last();
        assert(is_refresh_run(shorter, msgs.drop_last())) by {
            assert forall|i: int| 0 <= i < msgs.drop_last().len() implies shorter[i + 1].positions_handed_out()
                == shorter[i].positions_handed_out() + manga_count(#[trigger] msgs.drop_last()[i]) by {
                assert(msgs[i] == msgs.drop_last()[i]);
            }
        }
        lemma_refresh_run_count(shorter, msgs.drop_last());
        assert(views[n + 1].positions_handed_out() == views[n].positions_handed_out() + manga_count(msgs[n]));
        assert(shorter.last() == views[n]);
        assert forall|i: int, j: int|
            0 <= i <= j < views.len() implies #[trigger] views[i].positions_handed_out()
                <= #[trigger] views[j].positions_handed_out() by {
            assert(views[i] == shorter[i] || i == views.len() - 1);
            if j == views.len() - 1 {
                if i < j {
                    assert(shorter[i].positions_handed_out() <= shorter[n].positions_handed_out());
                }
            } else {
                assert(views[j] == shorter[j]);
                assert(views[i] == shorter[i]);
            }
        }
    }
}

/// Over any run of refreshes, the view has handed out exactly as many
/// positions as its manga lists hold, together, and no grid position is
/// handed out twice: every thumbnail asked for by an earlier manga list goes
/// to a lower position than every thumbnail asked for by a later one.
pub proof fn lemma_positions_over_a_run(views: Seq<View>, msgs: Seq<Message>)
    requires
        is_refresh_run(views, msgs),
    ensures
        views.last().positions_handed_out() == views[0].positions_handed_out() + positions_for(msgs),
        forall|i: int, j: int, a: int, b: int|
            0 <= i < j < msgs.len() && 0 <= a < manga_count(msgs[i]) && 0 <= b < manga_count(msgs[j])
                ==> #[trigger] thumbnail_requests(listed_mangas(msgs[i]), views[i].positions_handed_out() as int)[a].1
                < #[trigger] thumbnail_requests(listed_mangas(msgs[j]), views[j].positions_handed_out() as int)[b].1,
{
    lemma_refresh_run_count(views, msgs);
    assert forall|i: int, j: int, a: int, b: int|
        0 <= i < j < msgs.len() && 0 <= a < manga_count(msgs[i]) && 0 <= b < manga_count(msgs[j])
        implies #[trigger] thumbnail_requests(listed_mangas(msgs[i]), views[i].positions_handed_out() as int)[a].1
        < #[trigger] thumbnail_requests(listed_mangas(msgs[j]), views[j].positions_handed_out() as int)[b].1 by {
        assert(views[i + 1].positions_handed_out() == views[i].positions_handed_out() + manga_count(msgs[i]));
        assert(views[i + 1].positions_handed_out() <= views[j].positions_handed_out());
    }
}

/// Whether a source gets a sidebar page depends on its language alone: a
/// source whose language is `en` gets exactly one page, (its id, its display
/// name), whatever its other fields; any other source gets none; and the
/// pages of a list are those of its sources, in order.
pub proof fn lemma_sidebar_pages_by_language(sources: Seq<api::Source>, source: api::Source)
    ensures
        sidebar_pages(Seq::<api::Source>::empty()) == Seq::<(Seq<char>, Seq<char>)>::empty(),
        source.lang@ == "en"@ ==> sidebar_pages(seq![source]) == seq![(source.id@, source.display_name@)],
        source.lang@ != "en"@ ==> sidebar_pages(seq![source]) == Seq::<(Seq<char>, Seq<char>)>::empty(),
        sidebar_pages(sources.push(source)) == sidebar_pages(sources) + sidebar_pages(seq![source]),
{
    reveal_with_fuel(Seq::<api::Source>::filter, 2);
    let single = seq![source];
    assert(single.drop_last() =~= Seq::<api::Source>::empty());
    assert(sources.push(source).drop_last() =~= sources);
    assert(sidebar_pages(Seq::<api::Source>::empty()) =~= Seq::<(Seq<char>, Seq<char>)>::empty());
    if source.lang@ == "en"@ {
        assert(sidebar_pages(single) =~= seq![(source.id@, source.display_name@)]);
        assert(sidebar_pages(sources.push(source)) =~= sidebar_pages(sources).push((source.id@, source.display_name@)));
    } else {
        assert(sidebar_pages(single) =~= Seq::<(Seq<char>, Seq<char>)>::empty());
        assert(sidebar_pages(sources.push(source)) =~= sidebar_pages(sources));
    }
    assert(sidebar_pages(sources.push(source)) =~= sidebar_pages(sources) + sidebar_pages(single));
}

/// The (name, title) pairs of sidebar pages are the pages' own fields, one
/// pair per page, in order.
pub proof fn lemma_pages_view_fields(pages: Seq<SidebarPage>)
    ensures
        pages_view(pages).len() == pages.len(),
        forall|i: int| 0 <= i < pages.len() ==> #[trigger] pages_view(pages)[i] == (pages[i].name@, pages[i].title@),
{
}

/// Each thumbnail request names the manga at the same place of the list, and
/// asks for the position that many places after the first free one: one
/// request per manga, in list order, whatever positions went before.
pub proof fn lemma_thumbnail_requests_follow_list(mangas: Seq<api::Manga>, first: int)
    ensures
        thumbnail_requests(mangas, first).len() == mangas.len(),
        forall|i: int|
            0 <= i < mangas.len() ==> #[trigger] thumbnail_requests(mangas, first)[i] == (mangas[i].id, first + i),
{
}

/// The (manga, position) pairs of thumbnail requests are the requests' own
/// fields, one pair per request, in order.
pub proof fn lemma_requests_view_fields(requests: Seq<ThumbnailRequest>)
    ensures
        requests_view(requests).len() == requests.len(),
        forall|i: int|
            0 <= i < requests.len() ==> #[trigger] requests_view(requests)[i] == (requests[i].manga_id, requests[i].index as int),
{
}

} // verus!
