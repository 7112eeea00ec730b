//! The secure eraser's plan: which writes, syncs and the final removal a
//! secure delete performs, in order. The caller carries the steps out
//! against the filesystem; the plan itself is what this module gets right.

use vstd::prelude::*;

verus! {

use crate::chunks::CHUNK_SIZE;

/// One step of the secure-erase procedure.
#[derive(Debug, Clone, Copy, PartialEq, Eq, Structural)]
pub enum EraseStep {
    /// Overwrite the next so many bytes with fresh random data.
    Overwrite(u64),
    /// Force the pass to durable storage, then seek back to the start.
    Sync,
    /// Remove the file from the filesystem.
    Remove,
}

/// One pass over a file of the given size: full chunks, a final short chunk,
/// then one sync.
pub open spec fn spec_pass_steps(file_size: int) -> Seq<EraseStep>
    decreases file_size,
{
    if file_size <= 0 {
        seq![EraseStep::Sync]
    } else if file_size <= CHUNK_SIZE {
        seq![EraseStep::Overwrite(file_size as u64), EraseStep::Sync]
    } else {
        seq![EraseStep::Overwrite(CHUNK_SIZE as u64)] + spec_pass_steps(file_size - CHUNK_SIZE)
    }
}

/// The whole schedule: one pass per requested pass, then the removal.
pub open spec fn spec_schedule(file_size: int, passes: int) -> Seq<EraseStep>
    decreases passes,
{
    if passes <= 0 {
        seq![EraseStep::Remove]
    } else {
        spec_pass_steps(file_size) + spec_schedule(file_size, passes - 1)
    }
}

/// How many sync steps a plan holds.
pub open spec fn sync_count(s: Seq<EraseStep>) -> int
    decreases s.len(),
{
    if s.len() == 0 {
        0
    } else {
        sync_count(s.drop_last()) + if s.last() is Sync {
            1int
        } else {
            0int
        }
    }
}

/// How many bytes a plan overwrites in total.
pub open spec fn overwrite_total(s: Seq<EraseStep>) -> int
    decreases s.len(),
{
    if s.len() == 0 {
        0
    } else {
        overwrite_total(s.drop_last()) + match s.last() {
            EraseStep::Overwrite(w) => w as int,
            _ => 0int,
        }
    }
}

/// How many removal steps a plan holds.
pub open spec fn remove_count(s: Seq<EraseStep>) -> int
    decreases s.len(),
{
    if s.len() == 0 {
        0
    } else {
        remove_count(s.drop_last()) + if s.last() is Remove {
            1int
        } else {
            0int
        }
    }
}

proof fn lemma_counts_add(s1: Seq<EraseStep>, s2: Seq<EraseStep>)
    ensures
        sync_count(s1 + s2) == sync_count(s1) + sync_count(s2),
        overwrite_total(s1 + s2) == overwrite_total(s1) + overwrite_total(s2),
        remove_count(s1 + s2) == remove_count(s1) + remove_count(s2),
    decreases s2.len(),
{
    if s2.len() == 0 {
        assert(s1 + s2 =~= s1);
    } else {
        lemma_counts_add(s1, s2.drop_last());
        assert((s1 + s2).drop_last() =~= s1 + s2.drop_last());
        assert((s1 + s2).last() == s2.last());
    }
}

/// One pass syncs once, overwrites exactly the file length in chunks of at
/// most the chunk size, and removes nothing.
pub proof fn lemma_pass_steps_counts(file_size: int)
    requires
        file_size >= 0,
    ensures
        sync_count(spec_pass_steps(file_size)) == 1,
        overwrite_total(spec_pass_steps(file_size)) == file_size,
        remove_count(spec_pass_steps(file_size)) == 0,
        forall|i: int|
            0 <= i < spec_pass_steps(file_size).len()
                ==> (#[trigger] spec_pass_steps(file_size)[i] matches EraseStep::Overwrite(w)
                ==> 0 < w <= CHUNK_SIZE),
    decreases file_size,
{
    reveal_with_fuel(sync_count, 4);
    reveal_with_fuel(overwrite_total, 4);
    reveal_with_fuel(remove_count, 4);
    if file_size <= 0 {
        let s = seq![EraseStep::Sync];
        assert(s.drop_last() =~= Seq::<EraseStep>::empty());
    } else if file_size <= CHUNK_SIZE {
        let s = seq![EraseStep::Overwrite(file_size as u64), EraseStep::Sync];
        assert(s.drop_last() =~= seq![EraseStep::Overwrite(file_size as u64)]);
        assert(s.drop_last().drop_last() =~= Seq::<EraseStep>::empty());
    } else {
        lemma_pass_steps_counts(file_size - CHUNK_SIZE);
        let head = seq![EraseStep::Overwrite(CHUNK_SIZE as u64)];
        let rest = spec_pass_steps(file_size - CHUNK_SIZE);
        lemma_counts_add(head, rest);
        assert(head.drop_last() =~= Seq::<EraseStep>::empty());
        assert forall|i: int|
            0 <= i < (head + rest).len() implies (#[trigger] (head + rest)[i]
            matches EraseStep::Overwrite(w) ==> 0 < w <= CHUNK_SIZE) by {
            if i >= 1 {
                assert((head + rest)[i] == rest[i - 1]);
            }
        }
    }
}

/// The erase schedule syncs once per pass, overwrites the whole file length
/// in every pass in chunks of at most the chunk size, and ends with the one
/// and only removal step.
pub proof fn lemma_erase_schedule_counts(file_size: int, passes: int)
    requires
        file_size >= 0,
        passes >= 0,
    ensures
        sync_count(spec_schedule(file_size, passes)) == passes,
        overwrite_total(spec_schedule(file_size, passes)) == passes * file_size,
        remove_count(spec_schedule(file_size, passes)) == 1,
        spec_schedule(file_size, passes).len() >= 1,
        spec_schedule(file_size, passes).last() == EraseStep::Remove,
        forall|i: int|
            0 <= i < spec_schedule(file_size, passes).len() - 1 ==> #[trigger] spec_schedule(
                file_size,
                passes,
            )[i] != EraseStep::Remove,
        forall|i: int|
            0 <= i < spec_schedule(file_size, passes).len()
                ==> (#[trigger] spec_schedule(file_size, passes)[i] matches EraseStep::Overwrite(w)
                ==> 0 < w <= CHUNK_SIZE),
    decreases passes,
{
    reveal_with_fuel(sync_count, 4);
    reveal_with_fuel(overwrite_total, 4);
    reveal_with_fuel(remove_count, 4);
    if passes <= 0 {
        let s = seq![EraseStep::Remove];
        assert(s.drop_last() =~= Seq::<EraseStep>::empty());
    } else {
        lemma_erase_schedule_counts(file_size, passes - 1);
        lemma_pass_steps_counts(file_size);
        let pass = spec_pass_steps(file_size);
        let rest = spec_schedule(file_size, passes - 1);
        assert(spec_schedule(file_size, passes) == pass + rest);
        lemma_counts_add(pass, rest);
        assert(passes * file_size == file_size + (passes - 1) * file_size) by (nonlinear_arith);
        assert((pass + rest).last() == rest.last());
        assert forall|i: int|
            0 <= i < (pass + rest).len() - 1 implies #[trigger] (pass + rest)[i]
            != EraseStep::Remove by {
            if i < pass.len() {
                assert((pass + rest)[i] == pass[i]);
                if pass[i] == EraseStep::Remove {
                    lemma_remove_positive(pass, i);
                }
            } else {
                assert((pass + rest)[i] == rest[i - pass.len()]);
            }
        }
        assert forall|i: int|
            0 <= i < (pass + rest).len() implies (#[trigger] (pass + rest)[i]
            matches EraseStep::Overwrite(w) ==> 0 < w <= CHUNK_SIZE) by {
            if i < pass.len() {
                assert((pass + rest)[i] == pass[i]);
            } else {
                assert((pass + rest)[i] == rest[i - pass.len()]);
            }
        }
    }
}

/// A plan that holds a removal step counts at least one removal.
proof fn lemma_remove_positive(s: Seq<EraseStep>, i: int)
    requires
        0 <= i < s.len(),
        s[i] == EraseStep::Remove,
    ensures
        remove_count(s) >= 1,
    decreases s.len(),
{
    if i == s.len() - 1 {
        assert(remove_count(s.drop_last()) >= 0) by {
            lemma_remove_count_nonneg(s.drop_last());
        }
    } else {
        lemma_remove_positive(s.drop_last(), i);
    }
}

proof fn lemma_remove_count_nonneg(s: Seq<EraseStep>)
    ensures
        remove_count(s) >= 0,
    decreases s.len(),
{
    if s.len() > 0 {
        lemma_remove_count_nonneg(s.drop_last());
    }
}

/// Build the erase schedule for a file of the given size and the requested
/// number of overwrite passes.
pub fn erase_schedule(file_size: u64, passes: u32) -> (r: Vec<EraseStep>)
    ensures
        r@ == spec_schedule(file_size as int, passes as int),
{
    let mut steps: Vec<EraseStep> = Vec::new();
    let mut pass: u32 = 0;
    while pass < passes
        invariant
            pass <= passes,
            steps@ + spec_schedule(file_size as int, (passes - pass) as int) == spec_schedule(
                file_size as int,
                passes as int,
            ),
        decreases passes - pass,
    {
        let ghost before = steps@;
        let mut remaining = file_size;
        while remaining > CHUNK_SIZE as u64
            invariant
                steps@ + spec_pass_steps(remaining as int) == before + spec_pass_steps(
                    file_size as int,
                ),
            decreases remaining,
        {
            steps.push(EraseStep::Overwrite(CHUNK_SIZE as u64));
            proof {
                assert(steps@ + spec_pass_steps(remaining as int - CHUNK_SIZE) =~= before
                    + spec_pass_steps(file_size as int));
            }
            remaining = remaining - CHUNK_SIZE as u64;
        }
        if remaining > 0 {
            steps.push(EraseStep::Overwrite(remaining));
        }
        steps.push(EraseStep::Sync);
        proof {
            assert(steps@ =~= before + spec_pass_steps(file_size as int));
            assert(steps@ + spec_schedule(file_size as int, (passes - pass - 1) as int)
                =~= before + spec_schedule(file_size as int, (passes - pass) as int));
        }
        pass = pass + 1;
    }
    steps.push(EraseStep::Remove);
    proof {
        assert(spec_schedule(file_size as int, 0) =~= seq![EraseStep::Remove]);
        assert(steps@ =~= spec_schedule(file_size as int, passes as int));
    }
    steps
}

} // verus!
