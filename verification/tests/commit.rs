use consensus::commit_window::{commit_len, Walk, WalkStep};
use consensus::hera::commit::HeraCommitContext;
use consensus::leto::commit::CommitContext;
use consensus::linked_map::Link;

fn digest(n: u8) -> [u8; 32] {
    [n; 32]
}

fn link(author: usize, round: u64) -> Link {
    Link {
        author,
        round,
        parent: digest((round as u8).wrapping_sub(1)),
    }
}

#[test]
fn commit_quorums() {
    assert_eq!(commit_len(4, 1), 3);
    assert_eq!(commit_len(7, 2), 5);
    assert_eq!(commit_len(10, 3), 7);
    assert_eq!(commit_len(1, 0), 1);
}

/// Walks from a head, with every element below `known` in storage.
fn walk(ctx: &HeraCommitContext, head: Link, authors: &[usize]) -> Walk {
    let mut w = ctx.begin(digest(head.round as u8), head).unwrap();
    let mut step = WalkStep::Continue;
    loop {
        step = match step {
            WalkStep::Continue => {
                assert!(w.can_step());
                ctx.step(&mut w)
            }
            WalkStep::Read(h) => {
                let round = h[0] as u64;
                let found = authors.get(round as usize).map(|a| link(*a, round));
                ctx.supply(&mut w, found)
            }
            WalkStep::Done => return w,
        }
    }
}

#[test]
fn elements_commit_once_a_quorum_extends_them() {
    let authors = [0, 1, 2, 3, 0, 1, 2, 3];
    let mut ctx = HeraCommitContext::new(digest(0), link(0, 0), 4, 1);
    assert!(ctx.begin(digest(0), link(0, 0)).is_none());
    let mut committed: Vec<u64> = Vec::new();
    for round in 1..8u64 {
        let w = walk(&ctx, link(authors[round as usize], round), &authors);
        assert!(ctx.can_finish(&w));
        let run = ctx.finish(w);
        assert!(!run.exhausted);
        committed.extend(run.committed.iter().map(|e| e.1.round));
        // The window keeps fewer than three proposers.
        let decided: Vec<u64> = (1..round.saturating_sub(1)).collect();
        assert_eq!(committed, decided);
    }
}

#[test]
fn a_catch_up_over_several_elements_commits_in_order() {
    // Rounds 1 to 5, of which round 2 is only passed on the way to round 3.
    let authors = [0, 1, 2, 1, 2, 3];
    let mut ctx = HeraCommitContext::new(digest(0), link(0, 0), 4, 1);
    for round in [1u64, 3, 4] {
        let w = walk(&ctx, link(authors[round as usize], round), &authors);
        assert!(ctx.can_finish(&w));
        assert!(ctx.finish(w).committed.is_empty());
    }
    // The third proposer lets everything commit that all three stand behind, and no more.
    let w = walk(&ctx, link(3, 5), &authors);
    let run = ctx.finish(w);
    let rounds: Vec<u64> = run.committed.iter().map(|e| e.1.round).collect();
    assert_eq!(rounds, vec![1, 2, 3]);
    assert!(!run.exhausted);
    // What stays goes on to commit: nothing is passed over.
    let authors = [0, 1, 2, 1, 2, 3, 0, 1];
    let w = walk(&ctx, link(1, 7), &authors);
    let run = ctx.finish(w);
    let rounds: Vec<u64> = run.committed.iter().map(|e| e.1.round).collect();
    assert_eq!(rounds, vec![4, 5]);
}

#[test]
fn a_late_node_commits_what_it_missed() {
    let authors = [0, 1, 2, 3, 0, 1, 2, 3];
    let mut ctx = HeraCommitContext::new(digest(0), link(0, 0), 4, 1);
    let w = walk(&ctx, link(3, 7), &authors);
    let rounds: Vec<u64> = ctx.finish(w).committed.iter().map(|e| e.1.round).collect();
    assert_eq!(rounds, vec![1, 2, 3, 4, 5]);
}

#[test]
fn a_repeated_proposer_does_not_count_twice() {
    let authors = [0, 1, 1, 1, 2, 3];
    let mut ctx = HeraCommitContext::new(digest(0), link(0, 0), 4, 1);
    for round in 1..=4u64 {
        let w = walk(&ctx, link(authors[round as usize], round), &authors);
        assert!(ctx.finish(w).committed.is_empty());
    }
    let w = walk(&ctx, link(3, 5), &authors);
    let run = ctx.finish(w);
    let rounds: Vec<u64> = run.committed.iter().map(|e| e.1.round).collect();
    // All three elements of node 1 have to go before its count is gone.
    assert_eq!(rounds, vec![1, 2, 3]);
}

#[test]
fn a_walk_that_misses_the_window_replaces_it() {
    let authors = [0, 1, 2];
    let mut ctx = HeraCommitContext::new(digest(0), link(0, 0), 4, 1);
    let w = walk(&ctx, link(1, 1), &authors);
    ctx.finish(w);
    let mut head = link(2, 9);
    head.parent = digest(200);
    let w = walk(&ctx, head, &authors);
    assert!(!w.connected);
    assert!(ctx.finish(w).committed.is_empty());
    let w = walk(&ctx, Link { author: 3, round: 10, parent: digest(9) }, &authors);
    assert!(w.connected);
}

#[test]
fn a_window_with_wrong_counters_is_reported() {
    // A quorum of nobody asks for elements until none is left.
    let mut ctx = HeraCommitContext::new(digest(0), link(0, 0), 0, 0);
    let w = walk(&ctx, link(1, 1), &[0, 1]);
    let run = ctx.finish(w);
    assert!(run.exhausted);
    assert_eq!(run.committed.len(), 1);
}

/// Walks from the element of a round, with the elements of all rounds in storage, and ends the round.
fn end_round(ctx: &mut CommitContext, head: u64, author: impl Fn(u64) -> usize) -> Vec<u64> {
    let mut w = ctx.begin(digest(head as u8), link(author(head), head));
    let mut step = WalkStep::Continue;
    loop {
        step = match step {
            WalkStep::Continue => {
                assert!(w.can_step());
                ctx.step(&mut w)
            }
            WalkStep::Read(h) => {
                let round = h[0] as u64;
                ctx.supply(&mut w, Some(link(author(round), round)))
            }
            WalkStep::Done => break,
        }
    }
    assert!(ctx.can_finish(&w));
    let run = ctx.finish(w);
    assert!(!run.exhausted);
    run.committed.iter().map(|e| e.1.round).collect()
}

#[test]
fn proposal_chains_commit_at_the_quorum() {
    let author = |round: u64| (round % 4) as usize;
    let mut ctx = CommitContext::new(digest(0), link(0, 0), 4, 1);
    assert!(end_round(&mut ctx, 0, author).is_empty());
    let mut committed: Vec<(u64, u64)> = Vec::new();
    for round in 1..8u64 {
        committed.extend(end_round(&mut ctx, round, author).into_iter().map(|r| (round, r)));
    }
    // An element commits once three proposers, its own among them, stand behind it.
    assert_eq!(committed, vec![(3, 1), (4, 2), (5, 3), (6, 4), (7, 5)]);
}

#[test]
fn a_late_proposal_chain_commits_in_order() {
    let author = |round: u64| (round % 4) as usize;
    let mut ctx = CommitContext::new(digest(0), link(0, 0), 4, 1);
    // Seven rounds at once: all but the last two elements have a quorum.
    assert_eq!(end_round(&mut ctx, 7, author), vec![1, 2, 3, 4, 5]);
    // Three more extend the window.
    assert_eq!(end_round(&mut ctx, 10, author), vec![6, 7, 8]);
    // The same head again changes nothing.
    assert!(end_round(&mut ctx, 10, author).is_empty());
}

#[test]
fn repeated_proposers_hold_a_proposal_chain_up() {
    let author = |round: u64| if round < 5 { 1 } else { (round % 4) as usize + 4 };
    let mut ctx = CommitContext::new(digest(0), link(0, 0), 4, 1);
    for round in 1..6 {
        assert!(end_round(&mut ctx, round, author).is_empty());
    }
    assert_eq!(end_round(&mut ctx, 6, author), vec![1, 2, 3, 4]);
}

#[test]
fn a_proposal_walk_ends_where_storage_has_nothing() {
    let mut ctx = CommitContext::new(digest(0), link(0, 0), 4, 1);
    let mut w = ctx.begin(digest(5), link(1, 5));
    assert!(matches!(ctx.step(&mut w), WalkStep::Read(h) if h == digest(4)));
    assert!(matches!(ctx.supply(&mut w, None), WalkStep::Done));
    assert!(matches!(ctx.step(&mut w), WalkStep::Done));
    let run = ctx.finish(w);
    assert!(run.committed.is_empty() && !run.exhausted);
    // The window was replaced: the digest queued last is the one just walked.
    let mut again = ctx.begin(digest(5), link(1, 5));
    assert!(matches!(ctx.step(&mut again), WalkStep::Done));
    assert!(again.connected);
}
