//! Facts about sequences.

use vstd::prelude::*;

verus! {

/// Adding one element to a sequence adds it to what a filter keeps, or leaves that alone.
pub proof fn lemma_filter_push<A>(s: Seq<A>, pred: spec_fn(A) -> bool, e: A)
    ensures
        s.push(e).filter(pred) == if pred(e) {
            s.filter(pred).push(e)
        } else {
            s.filter(pred)
        },
{
    reveal(Seq::filter);
    assert(s.push(e).drop_last() =~= s);
}

/// A longer sequence holds what the shorter one held, and the new element.
pub proof fn lemma_push_contains<A>(s: Seq<A>, last: A, e: A)
    ensures
        s.push(last).contains(e) <==> s.contains(e) || e == last,
{
    let longer = s.push(last);
    if s.contains(e) {
        let i = choose|i: int| 0 <= i < s.len() && s[i] == e;
        assert(longer[i] == e);
    }
    assert(longer[s.len() as int] == last);
    if longer.contains(e) {
        let i = choose|i: int| 0 <= i < longer.len() && longer[i] == e;
        if i < s.len() {
            assert(s[i] == e);
        }
    }
}

/// A filter keeps the elements that meet its condition, and no others.
pub proof fn lemma_filter_contains<A>(s: Seq<A>, pred: spec_fn(A) -> bool, e: A)
    ensures
        s.filter(pred).contains(e) <==> s.contains(e) && pred(e),
    decreases s.len(),
{
    if s.len() == 0 {
        reveal(Seq::filter);
    } else {
        let rest = s.drop_last();
        let last = s.last();
        lemma_filter_contains(rest, pred, e);
        lemma_filter_push(rest, pred, last);
        assert(rest.push(last) =~= s);
        lemma_push_contains(rest, last, e);
        lemma_push_contains(rest.filter(pred), last, e);
    }
}

/// Whether the elements of one sequence stand at the given places of another,
/// from left to right.
pub open spec fn stands_at<A>(part: Seq<A>, whole: Seq<A>, places: Seq<int>) -> bool {
    &&& places.len() == part.len()
    &&& forall|i: int|
        0 <= i < part.len() ==> 0 <= #[trigger] places[i] < whole.len() && part[i]
            == whole[places[i]]
    &&& forall|i: int, j: int|
        0 <= i < j < places.len() ==> #[trigger] places[i] < #[trigger] places[j]
}

/// Whether one sequence is what is left of another once some of its elements
/// are left out.
pub open spec fn is_subsequence<A>(part: Seq<A>, whole: Seq<A>) -> bool {
    exists|places: Seq<int>| #[trigger] stands_at(part, whole, places)
}

/// What a filter keeps is a subsequence of what a weaker filter keeps.
pub proof fn lemma_stricter_filter<A>(
    s: Seq<A>,
    strict: spec_fn(A) -> bool,
    weak: spec_fn(A) -> bool,
)
    requires
        forall|e: A| #[trigger] strict(e) ==> weak(e),
    ensures
        is_subsequence(s.filter(strict), s.filter(weak)),
    decreases s.len(),
{
    if s.len() == 0 {
        reveal(Seq::filter);
        assert(stands_at(s.filter(strict), s.filter(weak), Seq::empty()));
    } else {
        let rest = s.drop_last();
        let last = s.last();
        lemma_stricter_filter(rest, strict, weak);
        assert(rest.push(last) =~= s);
        lemma_filter_push(rest, strict, last);
        lemma_filter_push(rest, weak, last);
        let whole = rest.filter(weak);
        let places = choose|places: Seq<int>| #[trigger]
            stands_at(rest.filter(strict), whole, places);
        let longer = if strict(last) {
            places.push(whole.len() as int)
        } else {
            places
        };
        assert(stands_at(s.filter(strict), s.filter(weak), longer));
    }
}

/// Two filters that agree on every element keep the same.
pub proof fn lemma_same_filter<A>(
    s: Seq<A>,
    one: spec_fn(A) -> bool,
    other: spec_fn(A) -> bool,
)
    requires
        forall|e: A| #[trigger] one(e) == other(e),
    ensures
        s.filter(one) == s.filter(other),
    decreases s.len(),
{
    reveal(Seq::filter);
    if s.len() > 0 {
        lemma_same_filter(s.drop_last(), one, other);
    }
}

/// To filter what a function gives is to filter by what it gives, and then
/// apply it.
pub proof fn lemma_filter_of_map<A, B>(
    s: Seq<A>,
    f: spec_fn(A) -> B,
    after: spec_fn(B) -> bool,
    before: spec_fn(A) -> bool,
)
    requires
        forall|e: A| #[trigger] before(e) == after(f(e)),
    ensures
        s.map_values(f).filter(after) == s.filter(before).map_values(f),
    decreases s.len(),
{
    if s.len() == 0 {
        reveal(Seq::filter);
        assert(s.map_values(f).filter(after) =~= s.filter(before).map_values(f));
    } else {
        let rest = s.drop_last();
        let last = s.last();
        lemma_filter_of_map(rest, f, after, before);
        assert(rest.push(last) =~= s);
        assert(rest.map_values(f).push(f(last)) =~= s.map_values(f));
        lemma_filter_push(rest, before, last);
        lemma_filter_push(rest.map_values(f), after, f(last));
        assert(rest.filter(before).push(last).map_values(f) =~= rest.filter(before).map_values(
            f,
        ).push(f(last)));
    }
}

/// Whether one sequence is made of the elements of another that stand at the
/// places in question, of all of them and in their order.
pub open spec fn picks_out<A>(part: Seq<A>, whole: Seq<A>, kept: spec_fn(int) -> bool) -> bool {
    exists|places: Seq<int>| #[trigger]
        stands_at(part, whole, places) && forall|j: int|
            0 <= j < whole.len() ==> (#[trigger] kept(j) <==> places.contains(j))
}

/// One more element at the end is picked out or not.
pub proof fn lemma_picks_out_push<A>(
    part: Seq<A>,
    whole: Seq<A>,
    kept: spec_fn(int) -> bool,
    e: A,
    longer: spec_fn(int) -> bool,
)
    requires
        picks_out(part, whole, kept),
        forall|j: int| 0 <= j < whole.len() ==> #[trigger] longer(j) == kept(j),
    ensures
        picks_out(
            if longer(whole.len() as int) {
                part.push(e)
            } else {
                part
            },
            whole.push(e),
            longer,
        ),
{
    let n = whole.len() as int;
    let places = choose|places: Seq<int>| #[trigger]
        stands_at(part, whole, places) && forall|j: int|
            0 <= j < whole.len() ==> (#[trigger] kept(j) <==> places.contains(j));
    if longer(n) {
        let more = places.push(n);
        assert(stands_at(part.push(e), whole.push(e), more));
        assert forall|j: int| 0 <= j < whole.push(e).len() implies (#[trigger] longer(j)
            <==> more.contains(j)) by {
            lemma_push_contains(places, n, j);
            if j < n {
                assert(longer(j) == kept(j));
            }
        }
    } else {
        assert(stands_at(part, whole.push(e), places));
        assert forall|j: int| 0 <= j < whole.push(e).len() implies (#[trigger] longer(j)
            <==> places.contains(j)) by {
            if j < n {
                assert(longer(j) == kept(j));
            } else if places.contains(j) {
                let i = choose|i: int| 0 <= i < places.len() && places[i] == j;
                assert(places[i] < n);
            }
        }
    }
}

/// One more element at the front is picked out or not.
pub proof fn lemma_picks_out_front<A>(
    part: Seq<A>,
    whole: Seq<A>,
    kept: spec_fn(int) -> bool,
    e: A,
    longer: spec_fn(int) -> bool,
)
    requires
        picks_out(part, whole, kept),
        forall|j: int| 0 <= j < whole.len() ==> longer(j + 1) == #[trigger] kept(j),
    ensures
        picks_out(
            if longer(0) {
                seq![e] + part
            } else {
                part
            },
            seq![e] + whole,
            longer,
        ),
{
    let places = choose|places: Seq<int>| #[trigger]
        stands_at(part, whole, places) && forall|j: int|
            0 <= j < whole.len() ==> (#[trigger] kept(j) <==> places.contains(j));
    let moved = places.map_values(|i: int| i + 1);
    let more = if longer(0) {
        seq![0int] + moved
    } else {
        moved
    };
    let shift: int = if longer(0) {
        1
    } else {
        0
    };
    let longer_part = if longer(0) {
        seq![e] + part
    } else {
        part
    };
    assert forall|i: int| 0 <= i < places.len() implies #[trigger] more[i + shift] == places[i]
        + 1 by {}
    assert forall|i: int| 0 <= i < longer_part.len() implies 0 <= #[trigger] more[i] < (seq![e]
        + whole).len() && longer_part[i] == (seq![e] + whole)[more[i]] by {
        if i >= shift {
            assert(more[i - shift + shift] == places[i - shift] + 1);
        }
    }
    assert forall|i: int, j: int| 0 <= i < j < more.len() implies #[trigger] more[i]
        < #[trigger] more[j] by {
        assert(more[j - shift + shift] == places[j - shift] + 1);
        if i >= shift {
            assert(more[i - shift + shift] == places[i - shift] + 1);
        }
    }
    assert(stands_at(longer_part, seq![e] + whole, more));
    assert forall|j: int| 0 <= j < (seq![e] + whole).len() implies (#[trigger] longer(j)
        <==> more.contains(j)) by {
        if j == 0 {
            if longer(0) {
                assert(more[0] == 0);
            } else if more.contains(j) {
                let i = choose|i: int| 0 <= i < more.len() && more[i] == j;
                assert(more[i] == places[i] + 1);
            }
        } else {
            assert(longer(j - 1 + 1) == kept(j - 1));
            if places.contains(j - 1) {
                let i = choose|i: int| 0 <= i < places.len() && places[i] == j - 1;
                assert(more[i + shift] == j);
            }
            if more.contains(j) {
                let i = choose|i: int| 0 <= i < more.len() && more[i] == j;
                assert(i >= shift);
                assert(more[i - shift + shift] == places[i - shift] + 1);
                assert(places[i - shift] == j - 1);
            }
        }
    }
}

} // verus!
