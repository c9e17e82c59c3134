//! The reader window's data: what the server has sent so far, and the
//! messages that carry its answers to the window.

use vstd::prelude::*;
use crate::api;

verus! {

/// A manga shown in the window, with its thumbnail image once it arrived.
pub struct Manga {
    manga: api::Manga,
    thumbnail: Option<Vec<u8>>,
}

impl Manga {
    /// The manga as the server described it.
    pub closed spec fn info(&self) -> api::Manga {
        self.manga
    }

    /// The bytes of the thumbnail image, when they arrived.
    pub closed spec fn thumbnail(&self) -> Option<Vec<u8>> {
        self.thumbnail
    }
}

impl std::ops::Deref for Manga {
    type Target = api::Manga;

    fn deref(&self) -> (manga: &api::Manga)
        ensures
            *manga == self.info(),
    {
        &self.manga
    }
}

/// An answer of the server, or an event of the window, handed to the model
/// and then to the view.
pub enum Message {
    /// The list of sources (`None` once the model has taken it).
    SourceList(Option<Vec<api::Source>>),
    /// A page of the latest mangas of the selected source.
    MangaList(Option<Vec<api::Manga>>),
    /// The thumbnail image of the manga at the given position of the grid.
    Thumbnail(Option<Vec<u8>>, usize),
    /// A source was picked in the sidebar.
    Sidebar(u16),
}

/// What the window knows of the server's data.
pub struct Model {
    source_list: Option<Vec<api::Source>>,
    manga_list: Option<Vec<Manga>>,
}

impl Model {
    /// The list of sources, once it arrived.
    pub closed spec fn sources(&self) -> Option<Vec<api::Source>> {
        self.source_list
    }

    /// The mangas of the grid, once they were stored.
    pub closed spec fn mangas(&self) -> Option<Vec<Manga>> {
        self.manga_list
    }

    /// A model that has received nothing yet.
    pub fn new() -> (model: Self)
        ensures
            model.sources() is None,
            model.mangas() is None,
    {
        Self { source_list: None, manga_list: None }
    }

    /// Takes in a message: a source list moves from the message into the
    /// model (the message keeps `None`); any other message changes nothing.
    pub fn update(&mut self, msg: &mut Message)
        ensures
            final(self).sources() == updated_sources(old(self).sources(), *old(msg)),
            final(self).mangas() == old(self).mangas(),
            *final(msg) == after_update(*old(msg)),
            updates(*old(self), *old(msg), *final(self)),
    {
        match msg {
            Message::SourceList(option) => {
                self.source_list = option.take();
            },
            Message::MangaList(_) => {},
            Message::Thumbnail(_, _) => {},
            Message::Sidebar(_) => {},
        }
    }

    /// The list of sources, once it arrived.
    pub fn source_list(&self) -> (list: Option<&Vec<api::Source>>)
        ensures
            list is Some <==> self.sources() is Some,
            list is Some ==> *list->0 == self.sources()->0,
    {
        self.source_list.as_ref()
    }

    /// The mangas of the grid, once they were stored.
    pub fn manga_list(&self) -> (list: Option<&Vec<Manga>>)
        ensures
            list is Some <==> self.mangas() is Some,
            list is Some ==> *list->0 == self.mangas()->0,
    {
        self.manga_list.as_ref()
    }
}

/// The source list of the model after it took in `msg`.
pub open spec fn updated_sources(sources: Option<Vec<api::Source>>, msg: Message) -> Option<Vec<api::Source>> {
    match msg {
        Message::SourceList(list) => list,
        _ => sources,
    }
}

/// What is left of `msg` after the model took it in.
pub open spec fn after_update(msg: Message) -> Message {
    match msg {
        Message::SourceList(_) => Message::SourceList(None),
        _ => msg,
    }
}

/// Whether `after` is what `before` becomes when it takes in `msg`: the
/// source list as `Model::update` sets it, and the mangas unchanged.
pub open spec fn updates(before: Model, msg: Message, after: Model) -> bool {
    &&& after.sources() == updated_sources(before.sources(), msg)
    &&& after.mangas() == before.mangas()
}

/// The source list held after taking in `msgs` in order, starting from
/// `start`: that of the last source-list message, or `start` if there is none.
pub open spec fn last_source_list(start: Option<Vec<api::Source>>, msgs: Seq<Message>) -> Option<Vec<api::Source>>
    decreases msgs.len(),
{
    if msgs.len() == 0 {
        start
    } else {
        match msgs.last() {
            Message::SourceList(list) => list,
            _ => last_source_list(start, msgs.drop_last()),
        }
    }
}

/// Whether `models` is a run of updates: each model is the one before it
/// after taking in the message of the same position.
pub open spec fn is_update_run(models: Seq<Model>, msgs: Seq<Message>) -> bool {
    &&& models.len() == msgs.len() + 1
    &&& forall|i: int| 0 <= i < msgs.len() ==> updates(models[i], #[trigger] msgs[i], models[i + 1])
}

/// After any number of updates, the model holds the list of the last
/// source-list message taken in (or what it held at the start, when there
/// was none; from `Model::new`, nothing); and it never holds mangas that it
/// did not hold at the start (from `Model::new`, none).
pub proof fn lemma_update_run(models: Seq<Model>, msgs: Seq<Message>)
    requires
        is_update_run(models, msgs),
    ensures
        models.last().sources() == last_source_list(models[0].sources(), msgs),
        forall|j: int| 0 <= j < models.len() ==> #[trigger] models[j].mangas() == models[0].mangas(),
    decreases msgs.len(),
{
    if msgs.len() > 0 {
        let n = msgs.len() - 1;
        let shorter = models.drop_last();
        assert(is_update_run(shorter, msgs.drop_last())) by {
            assert forall|i: int| 0 <= i < msgs.drop_last().len() implies updates(
                shorter[i],
                #[trigger] msgs.drop_last()[i],
                shorter[i + 1],
            ) by {
                assert(updates(models[i], msgs[i], models[i + 1]));
            }
        }
        lemma_update_run(shorter, msgs.drop_last());
        assert(updates(models[n], msgs[n], models[n + 1]));
        assert(shorter.last() == models[n]);
        assert forall|j: int| 0 <= j < models.len() implies #[trigger] models[j].mangas() == models[0].mangas() by {
            if j < models.len() - 1 {
                assert(models[j] == shorter[j]);
            }
        }
    }
}

/// Only a source-list message touches the model's source list: it puts its
/// own list there (and is left holding `None`); every other message leaves
/// both the source list and itself as they were.
pub proof fn lemma_only_source_lists_change_sources(sources: Option<Vec<api::Source>>, msg: Message)
    ensures
        !(msg is SourceList) ==> updated_sources(sources, msg) == sources,
        !(msg is SourceList) ==> after_update(msg) == msg,
        msg is SourceList ==> updated_sources(sources, msg) == msg->SourceList_0,
        msg is SourceList ==> after_update(msg) == Message::SourceList(None),
{
}

/// Taking in one more message changes the held source list only when that
/// message is a source list, and then to that message's list; with no
/// message at all the starting list is held.
pub proof fn lemma_last_source_list_steps(start: Option<Vec<api::Source>>, msgs: Seq<Message>, msg: Message)
    ensures
        last_source_list(start, Seq::<Message>::empty()) == start,
        !(msg is SourceList) ==> last_source_list(start, msgs.push(msg)) == last_source_list(start, msgs),
        msg is SourceList ==> last_source_list(start, msgs.push(msg)) == msg->SourceList_0,
{
    assert(msgs.push(msg).drop_last() =~= msgs);
}

} // verus!
