//! Counting what happened within a span of time before now.
use vstd::prelude::*;

verus! {

/// Whether `t` lies no more than `span` before `now`.
pub open spec fn is_recent(t: u64, now: u64, span: u64) -> bool {
    now - t <= span
}

/// How many of `times` are recent.
pub open spec fn recent_count(times: Seq<u64>, now: u64, span: u64) -> nat
    decreases times.len(),
{
    if times.len() == 0 {
        0
    } else {
        recent_count(times.drop_last(), now, span) + if is_recent(times.last(), now, span) {
            1nat
        } else {
            0nat
        }
    }
}

/// Those of `times` that are recent, in order.
pub open spec fn recent_only(times: Seq<u64>, now: u64, span: u64) -> Seq<u64>
    decreases times.len(),
{
    if times.len() == 0 {
        Seq::empty()
    } else if is_recent(times.last(), now, span) {
        recent_only(times.drop_last(), now, span).push(times.last())
    } else {
        recent_only(times.drop_last(), now, span)
    }
}

/// As many times are kept as are counted, and no more than there are.
pub proof fn lemma_recent_len(times: Seq<u64>, now: u64, span: u64)
    ensures
        recent_only(times, now, span).len() == recent_count(times, now, span),
        recent_count(times, now, span) <= times.len(),
    decreases times.len(),
{
    if times.len() > 0 {
        lemma_recent_len(times.drop_last(), now, span);
    }
}

/// One more time counts if it is recent.
pub proof fn lemma_recent_push(times: Seq<u64>, t: u64, now: u64, span: u64)
    ensures
        recent_count(times.push(t), now, span) == recent_count(times, now, span) + if is_recent(
            t,
            now,
            span,
        ) {
            1nat
        } else {
            0nat
        },
{
    assert(times.push(t).drop_last() =~= times);
}

/// What is no longer recent can be forgotten: it does not count later on either.
pub proof fn law_forgetting_is_harmless(times: Seq<u64>, then: u64, now: u64, span: u64)
    requires
        then <= now,
    ensures
        recent_count(recent_only(times, then, span), now, span) == recent_count(times, now, span),
    decreases times.len(),
{
    if times.len() > 0 {
        law_forgetting_is_harmless(times.drop_last(), then, now, span);
        if is_recent(times.last(), then, span) {
            lemma_recent_push(
                recent_only(times.drop_last(), then, span),
                times.last(),
                now,
                span,
            );
        }
    }
}

/// Fewer times are recent later on.
pub proof fn lemma_recent_fades(times: Seq<u64>, then: u64, now: u64, span: u64)
    requires
        then <= now,
    ensures
        recent_count(times, now, span) <= recent_count(times, then, span),
    decreases times.len(),
{
    if times.len() > 0 {
        lemma_recent_fades(times.drop_last(), then, now, span);
    }
}

/// How many of `times` are recent.
pub fn count_recent(times: &Vec<u64>, now: u64, span: u64) -> (count: usize)
    ensures
        count == recent_count(times@, now, span),
{
    let mut count: usize = 0;
    let mut i: usize = 0;
    assert(times@.take(0) =~= Seq::<u64>::empty());
    while i < times.len()
        invariant
            i <= times.len(),
            count == recent_count(times@.take(i as int), now, span),
            count <= i,
        decreases times.len() - i,
    {
        proof {
            assert(times@.take(i + 1).drop_last() =~= times@.take(i as int));
        }
        if now.saturating_sub(times[i]) <= span {
            count = count + 1;
        }
        i = i + 1;
    }
    assert(times@.take(i as int) =~= times@);
    count
}

/// Those of `times` that are recent, in order.
pub fn keep_recent(times: &Vec<u64>, now: u64, span: u64) -> (kept: Vec<u64>)
    ensures
        kept@ == recent_only(times@, now, span),
{
    let mut kept: Vec<u64> = Vec::new();
    let mut i: usize = 0;
    assert(times@.take(0) =~= Seq::<u64>::empty());
    while i < times.len()
        invariant
            i <= times.len(),
            kept@ == recent_only(times@.take(i as int), now, span),
        decreases times.len() - i,
    {
        proof {
            assert(times@.take(i + 1).drop_last() =~= times@.take(i as int));
        }
        if now.saturating_sub(times[i]) <= span {
            kept.push(times[i]);
        }
        i = i + 1;
    }
    assert(times@.take(i as int) =~= times@);
    kept
}

/// What is recent is what lies no more than the span back: counting and keeping are those
/// of exactly these times, in order.
pub proof fn law_recent_is_within_span(times: Seq<u64>, now: u64, span: u64)
    ensures
        recent_only(times, now, span) == times.filter(|t: u64| now <= t + span),
        recent_count(times, now, span) == times.filter(|t: u64| now <= t + span).len(),
    decreases times.len(),
{
    reveal(Seq::filter);
    lemma_recent_len(times, now, span);
    if times.len() > 0 {
        law_recent_is_within_span(times.drop_last(), now, span);
    }
}

} // verus!
