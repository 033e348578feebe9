//! Rank order: sorting agents by score, best first.

use crate::agent::{Agent, AgentView};
use vstd::prelude::*;

verus! {

/// The views of the agents in `agents`, in order.
pub open spec fn views(agents: Seq<Agent>) -> Seq<AgentView> {
    Seq::new(agents.len(), |i: int| agents[i]@)
}

/// The members are in rank order: none has a lower score than a member that
/// comes after it.
pub open spec fn ranked(members: Seq<AgentView>) -> bool {
    forall|i: int, j: int|
        0 <= i <= j < members.len() ==> (#[trigger] members[i]).matches >= (
        #[trigger] members[j]).matches
}

/// The members whose score is `score`, in the order in which they stand.
pub open spec fn with_score(members: Seq<AgentView>, score: nat) -> Seq<AgentView> {
    members.filter(|a: AgentView| a.matches == score)
}

/// `after` holds the members of equal score in the order in which `before`
/// holds them.
pub open spec fn same_order_among_equals(before: Seq<AgentView>, after: Seq<AgentView>) -> bool {
    forall|score: nat| #[trigger] with_score(after, score) == with_score(before, score)
}

/// `after` is `before` in rank order: the same members, best first, those of
/// equal score in the order in which `before` holds them.
pub open spec fn ranking_of(before: Seq<AgentView>, after: Seq<AgentView>) -> bool {
    &&& after.to_multiset() == before.to_multiset()
    &&& ranked(after)
    &&& same_order_among_equals(before, after)
}

/// What holds of every item of a sequence holds of every item of each of its
/// rearrangements.
pub proof fn lemma_rearranged_keeps<A>(before: Seq<A>, after: Seq<A>, holds: spec_fn(A) -> bool)
    requires
        before.to_multiset() == after.to_multiset(),
        forall|i: int| 0 <= i < before.len() ==> holds(#[trigger] before[i]),
    ensures
        after.len() == before.len(),
        forall|i: int| 0 <= i < after.len() ==> holds(#[trigger] after[i]),
{
    before.to_multiset_ensures();
    after.to_multiset_ensures();
    assert forall|i: int| 0 <= i < after.len() implies holds(#[trigger] after[i]) by {
        assert(after.contains(after[i]));
        assert(after.to_multiset().count(after[i]) > 0);
        assert(before.contains(after[i]));
        let j = choose|j: int| 0 <= j < before.len() && before[j] == after[i];
        assert(holds(before[j]));
    }
}

/// Taking one item out of a sequence and putting it back at another place
/// rearranges the sequence.
proof fn lemma_moved_is_rearranged<A>(items: Seq<A>, from: int, to: int)
    requires
        0 <= to <= from < items.len(),
    ensures
        items.remove(from).insert(to, items[from]).to_multiset() == items.to_multiset(),
{
    broadcast use vstd::seq_lib::to_multiset_remove, vstd::seq_lib::to_multiset_insert;

    items.to_multiset_ensures();
    assert(items.contains(items[from]));
    let bag = items.to_multiset();
    assert(bag.count(items[from]) > 0);
    assert(items.remove(from).to_multiset() == bag.remove(items[from]));
    assert(items.remove(from).insert(to, items[from]).to_multiset() == bag.remove(
        items[from],
    ).insert(items[from]));
    assert(bag.remove(items[from]).insert(items[from]) =~= bag);
}

/// Where no member has the score, none is picked out.
proof fn lemma_none_with_score(members: Seq<AgentView>, score: nat)
    requires
        forall|i: int| 0 <= i < members.len() ==> (#[trigger] members[i]).matches != score,
    ensures
        with_score(members, score) == Seq::<AgentView>::empty(),
{
    let found = with_score(members, score);
    if found.len() > 0 {
        let has_score = |a: AgentView| a.matches == score;
        members.lemma_filter_pred(has_score, 0);
        assert(found.contains(found[0]));
        members.lemma_filter_contains_rev(has_score, found[0]);
        let i = choose|i: int| 0 <= i < members.len() && members[i] == found[0];
        assert(members[i].matches != score);
    }
    assert(found =~= Seq::<AgentView>::empty());
}

/// Moving a member toward the front, past members of other scores only,
/// leaves the members of each score in the order in which they stood.
proof fn lemma_moved_keeps_order(members: Seq<AgentView>, from: int, to: int, score: nat)
    requires
        0 <= to <= from < members.len(),
        forall|k: int| to <= k < from ==> (#[trigger] members[k]).matches != members[from].matches,
    ensures
        with_score(members.remove(from).insert(to, members[from]), score) == with_score(
            members,
            score,
        ),
{
    let has_score = |a: AgentView| a.matches == score;
    let front = members.subrange(0, to);
    let passed = members.subrange(to, from);
    let moved = seq![members[from]];
    let back = members.subrange(from + 1, members.len() as int);
    assert(members =~= front + passed + moved + back);
    assert(members.remove(from).insert(to, members[from]) =~= front + moved + passed + back);
    Seq::filter_distributes_over_add(front + passed + moved, back, has_score);
    Seq::filter_distributes_over_add(front + passed, moved, has_score);
    Seq::filter_distributes_over_add(front, passed, has_score);
    Seq::filter_distributes_over_add(front + moved + passed, back, has_score);
    Seq::filter_distributes_over_add(front + moved, passed, has_score);
    Seq::filter_distributes_over_add(front, moved, has_score);
    if members[from].matches == score {
        lemma_none_with_score(passed, score);
        assert(passed.filter(has_score) == Seq::<AgentView>::empty());
    } else {
        lemma_none_with_score(moved, score);
        assert(moved.filter(has_score) == Seq::<AgentView>::empty());
    }
    assert(front.filter(has_score) + moved.filter(has_score) + passed.filter(has_score)
        =~= front.filter(has_score) + passed.filter(has_score) + moved.filter(has_score));
}

/// Two sequences in rank order that hold the members of each score in the
/// same order, and as many members in all, are one and the same.
proof fn lemma_ranked_alike(first: Seq<AgentView>, second: Seq<AgentView>)
    requires
        ranked(first),
        ranked(second),
        first.len() == second.len(),
        same_order_among_equals(first, second),
    ensures
        first == second,
    decreases first.len(),
{
    if first.len() == 0 {
        assert(first =~= second);
    } else {
        let x = first.last();
        let y = second.last();
        lemma_last_scores_agree(first, second);
        lemma_last_scores_agree(second, first);
        let score = x.matches;
        assert(y.matches == score);
        let has_score = |a: AgentView| a.matches == score;
        reveal(Seq::filter);
        assert(with_score(first, score) == with_score(first.drop_last(), score).push(x));
        assert(with_score(second, score) == with_score(second.drop_last(), score).push(y));
        assert(with_score(second, score) == with_score(first, score));
        assert(with_score(first, score).last() == x);
        assert(with_score(second, score).last() == y);
        assert(x == y);
        let a = first.drop_last();
        let b = second.drop_last();
        assert forall|other: nat| #[trigger] with_score(b, other) == with_score(a, other) by {
            assert(with_score(second, other) == with_score(first, other));
            if other == score {
                assert(with_score(a, other) =~= with_score(first, other).drop_last());
                assert(with_score(b, other) =~= with_score(second, other).drop_last());
            }
        }
        assert forall|i: int, j: int| 0 <= i <= j < a.len() implies (#[trigger] a[i]).matches >= (
        #[trigger] a[j]).matches by {
            assert(a[i] == first[i] && a[j] == first[j]);
        }
        assert forall|i: int, j: int| 0 <= i <= j < b.len() implies (#[trigger] b[i]).matches >= (
        #[trigger] b[j]).matches by {
            assert(b[i] == second[i] && b[j] == second[j]);
        }
        lemma_ranked_alike(a, b);
        assert(first =~= a.push(x));
        assert(second =~= b.push(y));
    }
}

/// Of two sequences in rank order that hold the members of each score in the
/// same order, the last member of the first scores no lower than the last of
/// the second.
proof fn lemma_last_scores_agree(first: Seq<AgentView>, second: Seq<AgentView>)
    requires
        ranked(second),
        0 < first.len() == second.len(),
        forall|score: nat| #[trigger] with_score(second, score) == with_score(first, score),
    ensures
        first.last().matches >= second.last().matches,
{
    let x = first.last();
    let score = x.matches;
    let has_score = |a: AgentView| a.matches == score;
    first.lemma_filter_contains(has_score, first.len() - 1);
    assert(with_score(first, score).contains(x));
    assert(with_score(second, score) == with_score(first, score));
    second.lemma_filter_contains_rev(has_score, x);
    let j = choose|j: int| 0 <= j < second.len() && second[j] == x;
    assert(second[j].matches >= second[second.len() - 1].matches);
}

/// Rank order is determined: a sequence has one ranking, and no other.
pub proof fn lemma_ranking_is_determined(
    before: Seq<AgentView>,
    first: Seq<AgentView>,
    second: Seq<AgentView>,
)
    requires
        ranking_of(before, first),
        ranking_of(before, second),
    ensures
        first == second,
{
    before.to_multiset_ensures();
    first.to_multiset_ensures();
    second.to_multiset_ensures();
    assert forall|score: nat| #[trigger] with_score(second, score) == with_score(first, score) by {
        assert(with_score(first, score) == with_score(before, score));
        assert(with_score(second, score) == with_score(before, score));
    }
    lemma_ranked_alike(first, second);
}

/// Sorts the agents by score, best first. Agents of equal score keep the
/// order in which they stood.
pub(crate) fn rank(agents: &mut Vec<Agent>)
    ensures
        final(agents)@.len() == old(agents)@.len(),
        ranking_of(views(old(agents)@), views(final(agents)@)),
{
    let n: usize = agents.len();
    let mut sorted: usize = 0;
    while sorted < n
        invariant
            sorted <= n,
            agents@.len() == n,
            views(agents@).to_multiset() == views(old(agents)@).to_multiset(),
            ranked(views(agents@).take(sorted as int)),
            same_order_among_equals(views(old(agents)@), views(agents@)),
        decreases n - sorted,
    {
        let key: usize = agents[sorted].fitness().matches;
        let mut slot: usize = sorted;
        let mut searching: bool = true;
        while searching && slot > 0
            invariant
                slot <= sorted < n,
                agents@.len() == n,
                key == views(agents@)[sorted as int].matches,
                forall|k: int| slot <= k < sorted ==> (#[trigger] views(agents@)[k]).matches < key,
                !searching ==> slot > 0 && views(agents@)[slot - 1].matches >= key,
            decreases slot + if searching { 1int } else { 0int },
        {
            if agents[slot - 1].fitness().matches < key {
                slot -= 1;
            } else {
                searching = false;
            }
        }
        let ghost before = agents@;
        if slot < sorted {
            let agent = agents.remove(sorted);
            agents.insert(slot, agent);
        }
        proof {
            let was = views(before);
            let now = views(agents@);
            if slot < sorted {
                assert(now =~= was.remove(sorted as int).insert(slot as int, was[sorted as int]));
                lemma_moved_is_rearranged(was, sorted as int, slot as int);
                assert forall|score: nat| #[trigger] with_score(now, score) == with_score(
                    views(old(agents)@),
                    score,
                ) by {
                    lemma_moved_keeps_order(was, sorted as int, slot as int, score);
                    assert(with_score(was, score) == with_score(views(old(agents)@), score));
                }
            } else {
                assert(now =~= was);
            }
            let prefix = now.take(sorted + 1);
            assert forall|i: int, j: int| 0 <= i <= j < prefix.len() implies (
            #[trigger] prefix[i]).matches >= (#[trigger] prefix[j]).matches by {
                let old_i = if i < slot { i } else if i == slot { sorted as int } else { i - 1 };
                let old_j = if j < slot { j } else if j == slot { sorted as int } else { j - 1 };
                assert(prefix[i] == was[old_i]);
                assert(prefix[j] == was[old_j]);
                let old_prefix = was.take(sorted as int);
                if old_i < sorted {
                    assert(old_prefix[old_i] == was[old_i]);
                }
                if old_j < sorted {
                    assert(old_prefix[old_j] == was[old_j]);
                }
                if slot > 0 {
                    assert(old_prefix[slot - 1] == was[slot - 1]);
                }
            }
        }
        sorted += 1;
    }
    assert(views(agents@).take(n as int) =~= views(agents@));
}

} // verus!
