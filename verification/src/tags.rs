//! The index of tags: for each tag, the cards of the articles that carry it.

use crate::models::{ArticleCard, ArticleCardView};
use crate::search::{first_where, lemma_first_where, lemma_first_where_bounds};
use crate::sorting::{is_stable_order, keys_of, reordered, sort_by_key, stably_sorted, Keyed};
use vstd::prelude::*;

verus! {

/// What a [`Tag`] holds, as plain texts.
pub struct TagView {
    pub name: Seq<char>,
    pub articles: Seq<ArticleCardView>,
}

/// A tag and the cards of the articles that carry it.
#[derive(Debug)]
pub struct Tag {
    /// The tag.
    pub name: String,
    /// The cards, in the order in which the articles were looked at; a card
    /// that names the tag twice stands twice.
    pub articles: Vec<ArticleCard>,
}

impl DeepView for Tag {
    type V = TagView;

    open spec fn deep_view(&self) -> TagView {
        TagView { name: self.name@, articles: self.articles.deep_view() }
    }
}

impl View for Tag {
    type V = TagView;

    open spec fn view(&self) -> TagView {
        self.deep_view()
    }
}

impl Clone for Tag {
    fn clone(&self) -> (copy: Self)
        ensures
            copy@ == self@,
    {
        let articles = self.articles.clone();
        proof {
            assert(articles.deep_view() =~= self.articles.deep_view());
        }
        Tag { name: self.name.clone(), articles }
    }
}

impl Keyed for Tag {
    open spec fn key_of(&self) -> Seq<char> {
        self.name@
    }

    fn key(&self) -> (k: &str) {
        self.name.as_str()
    }
}

/// Whether the entry is that of the tag `tag`.
pub open spec fn named(tag: Seq<char>) -> spec_fn(TagView) -> bool {
    |entry: TagView| entry.name == tag
}

/// The index after the card `card` has been entered under `tag`: at the end
/// of the entry of the tag, or as a new, last entry where the tag has none.
pub open spec fn tagged(entries: Seq<TagView>, tag: Seq<char>, card: ArticleCardView) -> Seq<
    TagView,
> {
    let k = first_where(entries, named(tag));
    if 0 <= k < entries.len() {
        entries.update(k, TagView { articles: entries[k].articles.push(card), ..entries[k] })
    } else {
        entries.push(TagView { name: tag, articles: seq![card] })
    }
}

/// The index after the card `card` has been entered under each of `tags`,
/// in order.
pub open spec fn tagged_all(
    entries: Seq<TagView>,
    tags: Seq<Seq<char>>,
    card: ArticleCardView,
) -> Seq<TagView>
    decreases tags.len(),
{
    if tags.len() == 0 {
        entries
    } else {
        tagged(tagged_all(entries, tags.drop_last(), card), tags.last(), card)
    }
}

/// The index of the cards: each card entered under each of its tags, the
/// cards in order.
pub open spec fn tag_index(cards: Seq<ArticleCardView>) -> Seq<TagView>
    decreases cards.len(),
{
    if cards.len() == 0 {
        Seq::empty()
    } else {
        tagged_all(tag_index(cards.drop_last()), cards.last().tagy, cards.last())
    }
}

/// Builds the index of the cards, see [`tag_index`].
pub fn index_tags(cards: &Vec<ArticleCard>) -> (tags: Vec<Tag>)
    ensures
        tags.deep_view() == tag_index(cards.deep_view()),
{
    let ghost all = cards.deep_view();
    let mut tags: Vec<Tag> = Vec::new();
    let mut i: usize = 0;
    proof {
        assert(tags.deep_view() =~= tag_index(all.take(0)));
    }
    while i < cards.len()
        invariant
            i <= cards.len(),
            all == cards.deep_view(),
            tags.deep_view() == tag_index(all.take(i as int)),
        decreases cards.len() - i,
    {
        let card = &cards[i];
        let ghost start = tags.deep_view();
        let ghost names = card.tagy.deep_view();
        proof {
            assert(all[i as int] == card@);
            assert(all.take(i + 1).drop_last() =~= all.take(i as int));
            assert(all.take(i + 1).last() == card@);
        }
        let mut t: usize = 0;
        while t < card.tagy.len()
            invariant
                t <= card.tagy.len(),
                names == card.tagy.deep_view(),
                tags.deep_view() == tagged_all(start, names.take(t as int), card@),
            decreases card.tagy.len() - t,
        {
            let ghost before = tags.deep_view();
            let tag = &card.tagy[t];
            proof {
                assert(names[t as int] == tag@);
                assert(names.take(t + 1).drop_last() =~= names.take(t as int));
                assert(names.take(t + 1).last() == tag@);
            }
            let mut k: usize = 0;
            let mut found = false;
            while k < tags.len() && !found
                invariant
                    k <= tags.len(),
                    before == tags.deep_view(),
                    forall|j: int| 0 <= j < k ==> !named(tag@)(#[trigger] before[j]),
                    found ==> k < tags.len() && named(tag@)(before[k as int]),
                decreases tags.len() - k + (if found { 0int } else { 1int }),
            {
                proof {
                    assert(before[k as int] == tags[k as int]@);
                }
                if tags[k].name == *tag {
                    found = true;
                } else {
                    k += 1;
                }
            }
            proof {
                lemma_first_where(before, named(tag@), k as int);
            }
            let copy = card.clone();
            if found {
                let ghost had = tags[k as int].articles.deep_view();
                tags[k].articles.push(copy);
                proof {
                    assert(tags[k as int].articles.deep_view() =~= had.push(card@));
                    assert(had == before[k as int].articles);
                    assert(tags.deep_view() =~= tagged(before, tag@, card@)) by {
                        assert forall|j: int| 0 <= j < before.len() implies tags.deep_view()[j]
                            == tagged(before, tag@, card@)[j] by {
                            if j != k {
                                assert(tags.deep_view()[j] == before[j]);
                            }
                        }
                    }
                }
            } else {
                let mut articles: Vec<ArticleCard> = Vec::new();
                articles.push(copy);
                let entry = Tag { name: tag.clone(), articles };
                proof {
                    assert(entry.articles.deep_view() =~= seq![card@]);
                }
                tags.push(entry);
                proof {
                    assert(tags.deep_view() =~= before.push(entry@));
                }
            }
            t += 1;
        }
        proof {
            assert(names.take(card.tagy.len() as int) =~= names);
        }
        i += 1;
    }
    proof {
        assert(all.take(cards.len() as int) =~= all);
    }
    tags
}

/// What a [`TagContext`] holds, as plain texts.
pub struct TagContextView {
    pub tags: Seq<TagView>,
}

/// The tags in the order in which they are shown: sorted by name.
#[derive(Debug)]
pub struct TagContext {
    /// The tags.
    pub tags: Vec<Tag>,
}

impl DeepView for TagContext {
    type V = TagContextView;

    open spec fn deep_view(&self) -> TagContextView {
        TagContextView { tags: self.tags.deep_view() }
    }
}

impl View for TagContext {
    type V = TagContextView;

    open spec fn view(&self) -> TagContextView {
        self.deep_view()
    }
}

/// The names of the entries, in order.
pub open spec fn names_of(entries: Seq<TagView>) -> Seq<Seq<char>> {
    entries.map_values(|entry: TagView| entry.name)
}

impl TagContext {
    /// The entries of the index sorted by the names of the tags; entries
    /// with one name stay in the order in which they stand.
    pub fn from(src: &Vec<Tag>) -> (sorted: TagContext)
        ensures
            stably_sorted(sorted@.tags, src.deep_view(), names_of(src.deep_view())),
    {
        let copy = src.clone();
        proof {
            assert(copy.deep_view() =~= src.deep_view());
        }
        let tags = sort_by_key(copy);
        proof {
            let order = choose|order: Seq<int>|
                is_stable_order(order, keys_of(copy@)) && tags@ == reordered(copy@, order);
            assert(keys_of(copy@) =~= names_of(src.deep_view())) by {
                assert forall|j: int| 0 <= j < copy@.len() implies keys_of(copy@)[j] == names_of(
                    src.deep_view(),
                )[j] by {
                    assert(copy.deep_view()[j] == copy@[j]@);
                }
            }
            assert(tags.deep_view() =~= reordered(src.deep_view(), order)) by {
                assert forall|a: int| 0 <= a < order.len() implies tags.deep_view()[a]
                    == src.deep_view()[order[a]] by {
                    assert(tags@[a] == copy@[order[a]]);
                    assert(copy.deep_view()[order[a]] == copy@[order[a]]@);
                }
            }
        }
        TagContext { tags }
    }
}

/// A tag together with a card that carries it.
pub type Mark = (Seq<char>, ArticleCardView);

/// The tags of a card, each together with the card.
pub open spec fn marks_of(tags: Seq<Seq<char>>, card: ArticleCardView) -> Seq<Mark> {
    tags.map_values(|tag: Seq<char>| (tag, card))
}

/// The tags of all cards, each together with its card: the cards in order,
/// and the tags of a card in order.
pub open spec fn marks(cards: Seq<ArticleCardView>) -> Seq<Mark>
    decreases cards.len(),
{
    if cards.len() == 0 {
        Seq::empty()
    } else {
        marks(cards.drop_last()) + marks_of(cards.last().tagy, cards.last())
    }
}

/// Whether the mark is one of the tag `tag`.
pub open spec fn marked(tag: Seq<char>) -> spec_fn(Mark) -> bool {
    |m: Mark| m.0 == tag
}

/// The cards of the marks, in order.
pub open spec fn cards_of_marks(ms: Seq<Mark>) -> Seq<ArticleCardView> {
    ms.map_values(|m: Mark| m.1)
}

/// The cards that carry the tag `tag`, in order; a card that names the tag
/// twice stands twice.
pub open spec fn carriers(cards: Seq<ArticleCardView>, tag: Seq<char>) -> Seq<ArticleCardView> {
    cards_of_marks(marks(cards).filter(marked(tag)))
}

/// The index after each of `ms` has been entered, in order.
pub open spec fn entered(entries: Seq<TagView>, ms: Seq<Mark>) -> Seq<TagView>
    decreases ms.len(),
{
    if ms.len() == 0 {
        entries
    } else {
        tagged(entered(entries, ms.drop_last()), ms.last().0, ms.last().1)
    }
}

/// Whether the index has an entry for the tag `tag`.
pub open spec fn has_entry(index: Seq<TagView>, tag: Seq<char>) -> bool {
    exists|k: int| 0 <= k < index.len() && (#[trigger] index[k]).name == tag
}

/// Whether `index` is the index of the marks `ms`: no two entries have one
/// name, every mark has an entry, and every entry holds the cards of the
/// marks of its tag, in order, of which there is one at least.
pub open spec fn is_index_of(index: Seq<TagView>, ms: Seq<Mark>) -> bool {
    &&& forall|i: int, j: int|
        0 <= i < j < index.len() ==> (#[trigger] index[i]).name != (#[trigger] index[j]).name
    &&& forall|m: int| 0 <= m < ms.len() ==> has_entry(index, (#[trigger] ms[m]).0)
    &&& forall|k: int|
        0 <= k < index.len() ==> (#[trigger] index[k]).articles == cards_of_marks(
            ms.filter(marked(index[k].name)),
        ) && index[k].articles.len() > 0
}

/// Entering one mark after another is entering them all.
proof fn lemma_entered_add(entries: Seq<TagView>, a: Seq<Mark>, b: Seq<Mark>)
    ensures
        entered(entries, a + b) == entered(entered(entries, a), b),
    decreases b.len(),
{
    if b.len() == 0 {
        assert(a + b =~= a);
    } else {
        lemma_entered_add(entries, a, b.drop_last());
        assert((a + b).drop_last() =~= a + b.drop_last());
        assert((a + b).last() == b.last());
    }
}

/// Entering a card under its tags is entering its marks.
proof fn lemma_tagged_all_entered(
    entries: Seq<TagView>,
    tags: Seq<Seq<char>>,
    card: ArticleCardView,
)
    ensures
        tagged_all(entries, tags, card) == entered(entries, marks_of(tags, card)),
    decreases tags.len(),
{
    if tags.len() > 0 {
        lemma_tagged_all_entered(entries, tags.drop_last(), card);
        assert(marks_of(tags, card).drop_last() =~= marks_of(tags.drop_last(), card));
        assert(marks_of(tags, card).last() == (tags.last(), card));
    }
}

/// The index of the cards is the index that entering their marks gives.
proof fn lemma_index_entered(cards: Seq<ArticleCardView>)
    ensures
        tag_index(cards) == entered(Seq::empty(), marks(cards)),
    decreases cards.len(),
{
    if cards.len() > 0 {
        lemma_index_entered(cards.drop_last());
        lemma_tagged_all_entered(tag_index(cards.drop_last()), cards.last().tagy, cards.last());
        lemma_entered_add(
            Seq::empty(),
            marks(cards.drop_last()),
            marks_of(cards.last().tagy, cards.last()),
        );
    }
}

/// Entering a mark keeps an index an index.
proof fn lemma_tagged_keeps_index(index: Seq<TagView>, ms: Seq<Mark>, mark: Mark)
    requires
        is_index_of(index, ms),
    ensures
        is_index_of(tagged(index, mark.0, mark.1), ms.push(mark)),
{
    let tag = mark.0;
    let card = mark.1;
    let after = tagged(index, tag, card);
    let all = ms.push(mark);
    let k = first_where(index, named(tag));
    lemma_first_where_bounds(index, named(tag));
    assert forall|j: int| 0 <= j < index.len() && index[j].name != tag implies cards_of_marks(
        all.filter(marked(#[trigger] index[j].name)),
    ) == index[j].articles by {
        ms.lemma_filter_push(mark, marked(index[j].name));
    }
    if 0 <= k < index.len() {
        assert(named(tag)(index[k]));
        ms.lemma_filter_push(mark, marked(tag));
        let mine = ms.filter(marked(tag));
        assert(cards_of_marks(mine.push(mark)) =~= cards_of_marks(mine).push(card));
        assert forall|i: int, j: int| 0 <= i < j < after.len() implies (#[trigger] after[i]).name
            != (#[trigger] after[j]).name by {
            assert(after[i].name == index[i].name);
            assert(after[j].name == index[j].name);
        }
        assert forall|m: int| 0 <= m < all.len() implies has_entry(
            after,
            (#[trigger] all[m]).0,
        ) by {
            if m < ms.len() {
                assert(all[m] == ms[m]);
                let e = choose|e: int|
                    0 <= e < index.len() && (#[trigger] index[e]).name == ms[m].0;
                assert(after[e].name == index[e].name);
            } else {
                assert(after[k].name == tag);
            }
        }
        assert forall|e: int| 0 <= e < after.len() implies (#[trigger] after[e]).articles
            == cards_of_marks(all.filter(marked(after[e].name))) && after[e].articles.len()
            > 0 by {
            if e != k {
                assert(after[e] == index[e]);
                if index[e].name == tag {
                    if e < k {
                        assert(index[e].name != index[k].name);
                    } else {
                        assert(index[k].name != index[e].name);
                    }
                }
            }
        }
    } else {
        assert forall|m: int| 0 <= m < ms.len() implies !marked(tag)(#[trigger] ms[m]) by {
            if ms[m].0 == tag {
                let e = choose|e: int|
                    0 <= e < index.len() && (#[trigger] index[e]).name == ms[m].0;
                assert(named(tag)(index[e]));
            }
        }
        ms.lemma_all_neg_filter_empty(marked(tag));
        ms.lemma_filter_push(mark, marked(tag));
        assert(cards_of_marks(ms.filter(marked(tag)).push(mark)) =~= seq![card]);
        assert forall|i: int, j: int| 0 <= i < j < after.len() implies (#[trigger] after[i]).name
            != (#[trigger] after[j]).name by {
            assert(after[i] == index[i]);
            if j < index.len() {
                assert(after[j] == index[j]);
            } else {
                assert(!named(tag)(index[i]));
            }
        }
        assert forall|m: int| 0 <= m < all.len() implies has_entry(
            after,
            (#[trigger] all[m]).0,
        ) by {
            if m < ms.len() {
                assert(all[m] == ms[m]);
                let e = choose|e: int|
                    0 <= e < index.len() && (#[trigger] index[e]).name == ms[m].0;
                assert(after[e] == index[e]);
            } else {
                assert(after[index.len() as int].name == tag);
            }
        }
        assert forall|e: int| 0 <= e < after.len() implies (#[trigger] after[e]).articles
            == cards_of_marks(all.filter(marked(after[e].name))) && after[e].articles.len()
            > 0 by {
            if e < index.len() {
                assert(after[e] == index[e]);
                assert(!named(tag)(index[e]));
            }
        }
    }
}

/// Entering marks into an empty index gives the index of the marks.
proof fn lemma_entered_is_index(ms: Seq<Mark>)
    ensures
        is_index_of(entered(Seq::empty(), ms), ms),
    decreases ms.len(),
{
    if ms.len() == 0 {
    } else {
        lemma_entered_is_index(ms.drop_last());
        lemma_tagged_keeps_index(entered(Seq::empty(), ms.drop_last()), ms.drop_last(), ms.last());
        assert(ms.drop_last().push(ms.last()) =~= ms);
    }
}

/// The index of tags has one entry for each tag that a card carries, and no
/// other; the entry of a tag holds the cards that carry the tag, in the order
/// of the cards.
pub proof fn lemma_tag_index(cards: Seq<ArticleCardView>)
    ensures
        forall|i: int, j: int|
            0 <= i < j < tag_index(cards).len() ==> (#[trigger] tag_index(cards)[i]).name != (
            #[trigger] tag_index(cards)[j]).name,
        forall|k: int|
            0 <= k < tag_index(cards).len() ==> (#[trigger] tag_index(cards)[k]).articles
                == carriers(cards, tag_index(cards)[k].name),
        forall|tag: Seq<char>|
            has_entry(tag_index(cards), tag) <==> #[trigger] carriers(cards, tag).len() > 0,
{
    lemma_index_entered(cards);
    lemma_entered_is_index(marks(cards));
    let index = tag_index(cards);
    let ms = marks(cards);
    assert forall|tag: Seq<char>|
        has_entry(index, tag) <==> #[trigger] carriers(cards, tag).len() > 0 by {
        if has_entry(index, tag) {
            let k = choose|k: int| 0 <= k < index.len() && (#[trigger] index[k]).name == tag;
            assert(index[k].articles.len() > 0);
        }
        if carriers(cards, tag).len() > 0 {
            let kept = ms.filter(marked(tag));
            assert(kept.len() > 0);
            ms.lemma_filter_pred(marked(tag), 0);
            assert(kept.contains(kept[0]));
            ms.lemma_filter_contains_rev(marked(tag), kept[0]);
            let m = choose|m: int| 0 <= m < ms.len() && ms[m] == kept[0];
            let k = choose|k: int| 0 <= k < index.len() && (#[trigger] index[k]).name == ms[m].0;
            assert(index[k].name == tag);
        }
    }
}

} // verus!
