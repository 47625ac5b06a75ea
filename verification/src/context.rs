//! What goes into an error message: two lists of items side by side, with
//! what was taken away and what was put in.

use crate::canonical::copy_texts;
use crate::discovery::put_all_texts;
use crate::path::common_prefix;
use crate::path::common_until;
use crate::sorted::put_all;
use crate::sorted::sort;
use crate::sorted::sort_by_key;
use crate::text::join_texts;
use crate::text::joined_texts;
use crate::transport::hex_encoded;
use crate::transport::Match;
use crate::transport::MatchTransform;
use crate::transport::Sha256;
use vstd::prelude::*;
use vstd::slice::slice_subrange;
use vstd::string::StringExecFns;

verus! {

/// A text as `{:?}` writes it, by `Debug` for `str`: between double quotes,
/// with what needs it escaped.
pub uninterp spec fn debug_written(item: Seq<char>) -> Seq<char>;

/// Calls `format!` with `{:?}`, which writes the text by `Debug` for `str`.
#[verifier::external_body]
fn debug_text(item: &str) -> (r: String)
    ensures
        r@ == debug_written(item@),
{
    format!("{:?}", item)
}

/// The text with a line for each item behind it: the prefix, the item as
/// `{:?}` writes it, and a line feed.
pub open spec fn pushed(text: Seq<char>, prefix: Seq<char>, items: Seq<Seq<char>>) -> Seq<char>
    decreases items.len(),
{
    if items.len() == 0 {
        text
    } else {
        pushed(text, prefix, items.drop_last()) + prefix + debug_written(items.last()) + seq!['\n']
    }
}

/// How many items `a` and `b` share at their ends, at most `limit`, added
/// to the `shared` that were counted already.
pub open spec fn common_end(a: Seq<Seq<char>>, b: Seq<Seq<char>>, shared: int, limit: int) -> int
    decreases limit - shared,
{
    if 0 <= shared < limit && shared < a.len() && shared < b.len() && a[a.len() - 1 - shared]
        == b[b.len() - 1 - shared] {
        common_end(a, b, shared + 1, limit)
    } else {
        shared
    }
}

/// Two lists side by side: under the description, the items that both
/// begin with, each behind two spaces; then the items that only `a` has in
/// its middle, each behind `- `; then those that only `b` has, each behind
/// `+ `; then the items that both end with, behind two spaces again.
pub open spec fn diffed(description: Seq<char>, a: Seq<Seq<char>>, b: Seq<Seq<char>>) -> Seq<char> {
    let first = common_prefix(a, b);
    let room = if a.len() <= b.len() {
        a.len() - first
    } else {
        b.len() - first
    };
    let last = common_end(a, b, 0, room);
    pushed(
        pushed(
            pushed(
                pushed(description, "  "@, a.take(first)),
                "- "@,
                a.subrange(first, a.len() - last),
            ),
            "+ "@,
            b.subrange(first, b.len() - last),
        ),
        "  "@,
        a.skip(a.len() - last),
    )
}

/// Puts a line for each item behind the text.
pub fn push_diff_items(string: String, prefix: &str, items: &[String]) -> (r: String)
    ensures
        r@ == pushed(string@, prefix@, items.deep_view()),
{
    let ghost all = items.deep_view();
    let ghost start = string@;
    let mut text = string;
    let mut i: usize = 0;
    assert(all.take(0) =~= Seq::empty());
    while i < items.len()
        invariant
            0 <= i <= items.len(),
            all == items.deep_view(),
            text@ == pushed(start, prefix@, all.take(i as int)),
        decreases items.len() - i,
    {
        assert(all.take(i + 1).drop_last() =~= all.take(i as int));
        assert(all.take(i + 1).last() == items[i as int]@);
        text.append(prefix);
        let written = debug_text(items[i].as_str());
        text.append(written.as_str());
        proof {
            reveal_strlit("\n");
        }
        text.append("\n");
        assert("\n"@ =~= seq!['\n']);
        i += 1;
    }
    assert(all.take(i as int) =~= all);
    text
}

/// Two lists side by side, under a description.
pub fn diff_items_to_string(description: &str, a: &Vec<String>, b: &Vec<String>) -> (r: String)
    ensures
        r@ == diffed(description@, a.deep_view(), b.deep_view()),
{
    let ghost av = a.deep_view();
    let ghost bv = b.deep_view();
    let mut first: usize = 0;
    while first < a.len() && first < b.len()
        invariant
            0 <= first <= a.len(),
            first <= b.len(),
            av == a.deep_view(),
            bv == b.deep_view(),
            common_prefix(av, bv) == common_until(av, bv, first as int),
        ensures
            0 <= first <= a.len(),
            first <= b.len(),
            common_prefix(av, bv) == first,
        decreases a.len() - first,
    {
        assert(av[first as int] == a[first as int]@);
        assert(bv[first as int] == b[first as int]@);
        if a[first] != b[first] {
            break ;
        }
        first += 1;
    }
    let room: usize = if a.len() <= b.len() {
        a.len() - first
    } else {
        b.len() - first
    };
    let mut last: usize = 0;
    while last < room
        invariant
            0 <= last <= room,
            room + first <= a.len(),
            room + first <= b.len(),
            av == a.deep_view(),
            bv == b.deep_view(),
            common_end(av, bv, 0, room as int) == common_end(av, bv, last as int, room as int),
        ensures
            0 <= last <= room,
            common_end(av, bv, 0, room as int) == last,
        decreases room - last,
    {
        assert(av[av.len() - 1 - last] == a[a.len() - 1 - last]@);
        assert(bv[bv.len() - 1 - last] == b[b.len() - 1 - last]@);
        if a[a.len() - 1 - last] != b[b.len() - 1 - last] {
            break ;
        }
        last += 1;
    }
    let a_items = a.as_slice();
    let b_items = b.as_slice();
    let both_begin = slice_subrange(a_items, 0, first);
    let only_a = slice_subrange(a_items, first, a.len() - last);
    let only_b = slice_subrange(b_items, first, b.len() - last);
    let both_end = slice_subrange(a_items, a.len() - last, a.len());
    proof {
        assert(both_begin.deep_view() =~= av.take(first as int));
        assert(only_a.deep_view() =~= av.subrange(first as int, av.len() - last));
        assert(only_b.deep_view() =~= bv.subrange(first as int, bv.len() - last));
        assert(both_end.deep_view() =~= av.skip(av.len() - last));
    }
    let text = push_diff_items(description.to_owned(), "  ", both_begin);
    let text = push_diff_items(text, "- ", only_a);
    let text = push_diff_items(text, "+ ", only_b);
    push_diff_items(text, "  ", both_end)
}

/// What is to be said of texts that were to come in order, each once: the
/// texts beside the same in order, and those beside the same with each
/// held once.
pub open spec fn order_explained(items: Seq<Seq<char>>) -> Seq<char> {
    diffed(
        diffed("input vs. sorted\n"@, items, sort::<String>(items))
            + "sorted vs. sorted+deduped\n"@,
        sort::<String>(items),
        put_all::<String>(Seq::empty(), items),
    )
}

/// What is to be said of texts that were to come in order, each once.
pub fn explain_order(items: &Vec<String>) -> (r: String)
    ensures
        r@ == order_explained(items.deep_view()),
{
    let sorted = sort_by_key(copy_texts(items));
    let none: Vec<String> = Vec::new();
    assert(none.deep_view() =~= Seq::<Seq<char>>::empty());
    let deduped = put_all_texts(none, items);
    let mut text = diff_items_to_string("input vs. sorted\n", items, &sorted);
    text.append("sorted vs. sorted+deduped\n");
    diff_items_to_string(text.as_str(), &sorted, &deduped)
}

/// An item that can be shown as a text in a message.
pub trait Shown: DeepView + Sized {
    /// The text that shows the item.
    spec fn shown(item: Self::V) -> Seq<char>;

    /// The text that shows this item.
    fn show(&self) -> (r: String)
        ensures
            r@ == Self::shown(self.deep_view()),
    ;
}

/// The texts that show the items, in their order.
pub open spec fn all_shown<T: Shown>(items: Seq<T::V>) -> Seq<Seq<char>> {
    Seq::new(items.len(), |i: int| T::shown(items[i]))
}

/// What is to be said of items that were to come in order, each once: what
/// `order_explained` says of the texts that show them.
pub open spec fn explained<T: Shown>(items: Seq<T::V>) -> Seq<char> {
    order_explained(all_shown::<T>(items))
}

/// What is to be said of items that were to come in order, each once.
pub fn explain<T: Shown>(items: &Vec<T>) -> (r: String)
    ensures
        r@ == explained::<T>(items.deep_view()),
{
    let mut texts: Vec<String> = Vec::new();
    let mut i: usize = 0;
    while i < items.len()
        invariant
            0 <= i <= items.len(),
            texts.len() == i,
            forall|k: int| 0 <= k < i ==> (#[trigger] texts[k])@ == T::shown(items[k].deep_view()),
        decreases items.len() - i,
    {
        texts.push(items[i].show());
        i += 1;
    }
    assert(texts.deep_view() =~= all_shown::<T>(items.deep_view())) by {
        assert forall|k: int| 0 <= k < texts.len() implies texts.deep_view()[k] == all_shown::<T>(
            items.deep_view(),
        )[k] by {
            assert(texts.deep_view()[k] == texts[k]@);
            assert(items.deep_view()[k] == items[k].deep_view());
        }
    }
    explain_order(&texts)
}

/// A text is shown as it is.
impl Shown for String {
    open spec fn shown(item: Seq<char>) -> Seq<char> {
        item
    }

    fn show(&self) -> (r: String) {
        self.clone()
    }
}

/// A variable is shown as its name, `=`, and its value.
impl Shown for (String, String) {
    open spec fn shown(item: (Seq<char>, Seq<char>)) -> Seq<char> {
        item.0 + "="@ + item.1
    }

    fn show(&self) -> (r: String) {
        let mut r = self.0.clone();
        r.append("=");
        r.append(self.1.as_str());
        r
    }
}

/// An identified file is shown as its path.
impl Shown for (String, Option<Sha256>) {
    open spec fn shown(item: (Seq<char>, Option<Seq<u8>>)) -> Seq<char> {
        item.0
    }

    fn show(&self) -> (r: String) {
        self.0.clone()
    }
}

/// An identity is shown as its hexadecimal digits.
impl Shown for Sha256 {
    open spec fn shown(item: Seq<u8>) -> Seq<char> {
        hex_encoded(item)
    }

    fn show(&self) -> (r: String) {
        self.to_string()
    }
}

/// A regular expression is shown as its pattern.
impl Shown for Match {
    open spec fn shown(item: Seq<char>) -> Seq<char> {
        item
    }

    fn show(&self) -> (r: String) {
        self.match_regular_expression.clone()
    }
}

/// A transform is shown as its pattern, ` => `, and its templates with
/// `, ` between them.
impl Shown for MatchTransform {
    open spec fn shown(item: (Seq<char>, Seq<Seq<char>>)) -> Seq<char> {
        item.0 + " => "@ + joined_texts(item.1, ", "@)
    }

    fn show(&self) -> (r: String) {
        let mut r = self.match_regular_expression.clone();
        r.append(" => ");
        let templates = join_texts(&self.match_transform_expressions, ", ");
        r.append(templates.as_str());
        r
    }
}

/// A sequence of transforms is shown as its transforms with `; ` between
/// them.
impl Shown for Vec<MatchTransform> {
    open spec fn shown(item: Seq<(Seq<char>, Seq<Seq<char>>)>) -> Seq<char> {
        joined_texts(all_shown::<MatchTransform>(item), "; "@)
    }

    fn show(&self) -> (r: String) {
        let mut texts: Vec<String> = Vec::new();
        let mut i: usize = 0;
        while i < self.len()
            invariant
                0 <= i <= self.len(),
                texts.len() == i,
                forall|k: int|
                    0 <= k < i ==> (#[trigger] texts[k])@ == MatchTransform::shown(
                        self[k].deep_view(),
                    ),
            decreases self.len() - i,
        {
            texts.push(self[i].show());
            i += 1;
        }
        assert(texts.deep_view() =~= all_shown::<MatchTransform>(self.deep_view())) by {
            assert forall|k: int| 0 <= k < texts.len() implies texts.deep_view()[k] == all_shown::<
                MatchTransform,
            >(self.deep_view())[k] by {
                assert(texts.deep_view()[k] == texts[k]@);
                assert(self.deep_view()[k] == self[k].deep_view());
            }
        }
        join_texts(&texts, "; ")
    }
}

} // verus!
