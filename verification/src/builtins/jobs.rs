//! `jobs`: the table of background jobs. Which jobs have finished is found
//! out by the caller.
use vstd::prelude::*;
use vstd::utf8::encode_utf8;
use crate::repl::{decimal, decimal_string};
use crate::shell::RunningJob;
use crate::text::{chars_of, has_suffix, push_all, push_char, string_from_range, str_eq, to_owned_string};

verus! {

/// `Done`
pub open spec fn done_status() -> Seq<char> {
    seq!['D', 'o', 'n', 'e']
}

/// `Running`
pub open spec fn running_status() -> Seq<char> {
    seq!['R', 'u', 'n', 'n', 'i', 'n', 'g']
}

/// The status of job `i` once `finished` is known: `Done` if it finished,
/// else as it was.
pub open spec fn status_now(jobs: Seq<RunningJob>, finished: Seq<bool>, i: int) -> Seq<char> {
    if i < finished.len() && finished[i] {
        done_status()
    } else {
        jobs[i].status@
    }
}

/// `+` marks the most recent job, `-` the one before it.
pub open spec fn recency_mark(i: int, len: int) -> Seq<char> {
    if len > 1 && i == len - 2 {
        seq!['-']
    } else if i == len - 1 {
        seq!['+']
    } else {
        Seq::empty()
    }
}

/// `n` spaces.
pub open spec fn spaces(n: nat) -> Seq<char> {
    Seq::new(n, |k: int| ' ')
}

/// The command shown for a job: a finished job's command without its ` &`.
pub open spec fn shown_command(command: Seq<char>, status: Seq<char>) -> Seq<char> {
    if status == done_status() {
        command.subrange(0, command.len() - 2)
    } else {
        command
    }
}

/// The table line of job `i`: `[n]` and its mark, two spaces, the status
/// padded to 24 bytes, and the command.
pub open spec fn job_line(jobs: Seq<RunningJob>, finished: Seq<bool>, i: int) -> Seq<char> {
    let status = status_now(jobs, finished, i);
    seq!['['] + decimal(jobs[i].job_number as nat) + seq![']'] + recency_mark(i, jobs.len() as int)
        + seq![' ', ' '] + status + spaces((24 - encode_utf8(status).len()) as nat) + shown_command(
        jobs[i].command_string@,
        status,
    )
}

/// The jobs among `jobs[..n]` that are still running once `finished` is
/// known, in order, each as (number, process id, command, status).
pub open spec fn still_running(jobs: Seq<RunningJob>, finished: Seq<bool>, n: int) -> Seq<(usize, u32, Seq<char>, Seq<char>)>
    decreases n,
{
    if n <= 0 {
        Seq::empty()
    } else if status_now(jobs, finished, n - 1) == running_status() {
        still_running(jobs, finished, n - 1).push(
            (jobs[n - 1].job_number, jobs[n - 1].process_id, jobs[n - 1].command_string@, status_now(jobs, finished, n - 1)),
        )
    } else {
        still_running(jobs, finished, n - 1)
    }
}

/// The jobs as (number, process id, command, status).
pub open spec fn job_rows(jobs: Seq<RunningJob>) -> Seq<(usize, u32, Seq<char>, Seq<char>)> {
    jobs.map_values(|j: RunningJob| (j.job_number, j.process_id, j.command_string@, j.status@))
}

/// Lists the background jobs, one line each (see [`job_line`]); `finished[i]`
/// tells whether job `i` has ended. Jobs that are no longer running are
/// then forgotten.
pub fn handle_jobs(jobs: &mut Vec<RunningJob>, finished: &Vec<bool>) -> (lines: Vec<String>)
    requires
        forall|i: int|
            0 <= i < old(jobs)@.len() ==> encode_utf8(#[trigger] status_now(old(jobs)@, finished@, i)).len() <= 24,
        forall|i: int|
            0 <= i < old(jobs)@.len() && #[trigger] status_now(old(jobs)@, finished@, i) == done_status()
                ==> has_suffix(old(jobs)@[i].command_string@, seq![' ', '&']),
    ensures
        lines@.len() == old(jobs)@.len(),
        forall|i: int| 0 <= i < lines@.len() ==> #[trigger] lines@[i]@ == job_line(old(jobs)@, finished@, i),
        job_rows(final(jobs)@) == still_running(old(jobs)@, finished@, old(jobs)@.len() as int),
{
    proof {
        reveal_strlit("Done");
        reveal_strlit("Running");
        reveal_strlit("  ");
        assert("Done"@ =~= done_status());
        assert("Running"@ =~= running_status());
        assert("  "@ =~= seq![' ', ' ']);
    }
    let ghost all = jobs@;
    let len = jobs.len();
    let mut lines: Vec<String> = Vec::new();
    let mut kept: Vec<RunningJob> = Vec::new();
    let mut i: usize = 0;
    while i < len
        invariant
            len == all.len(),
            jobs@ == all,
            i <= len,
            lines@.len() == i,
            forall|k: int| 0 <= k < i ==> #[trigger] lines@[k]@ == job_line(all, finished@, k),
            job_rows(kept@) == still_running(all, finished@, i as int),
            forall|k: int|
                0 <= k < all.len() ==> encode_utf8(#[trigger] status_now(all, finished@, k)).len() <= 24,
            forall|k: int|
                0 <= k < all.len() && #[trigger] status_now(all, finished@, k) == done_status()
                    ==> has_suffix(all[k].command_string@, seq![' ', '&']),
        decreases len - i,
    {
        proof {
            reveal_strlit("Done");
            reveal_strlit("Running");
            reveal_strlit("  ");
            assert("Done"@ =~= done_status());
            assert("Running"@ =~= running_status());
            assert("  "@ =~= seq![' ', ' ']);
        }
        let job = &jobs[i];
        let status = if i < finished.len() && finished[i] {
            to_owned_string("Done")
        } else {
            job.status.clone()
        };
        assert(status@ == status_now(all, finished@, i as int));
        let mut line = String::new();
        push_char(&mut line, '[');
        let number = decimal_string(job.job_number as u64);
        push_all(&mut line, number.as_str());
        push_char(&mut line, ']');
        let ghost mark_at = line@;
        if len > 1 && i == len - 2 {
            push_char(&mut line, '-');
        } else if i == len - 1 {
            push_char(&mut line, '+');
        }
        assert(line@ =~= mark_at + recency_mark(i as int, len as int));
        push_all(&mut line, "  ");
        push_all(&mut line, status.as_str());
        let width = status.as_str().len();
        let ghost pad_at = line@;
        let mut k: usize = width;
        while k < 24
            invariant
                width <= k <= 24,
                line@ == pad_at + spaces((k - width) as nat),
            decreases 24 - k,
        {
            push_char(&mut line, ' ');
            k = k + 1;
            assert(line@ =~= pad_at + spaces((k - width) as nat));
        }
        let is_done = str_eq(status.as_str(), "Done");
        if is_done {
            let cs = chars_of(job.command_string.as_str());
            let name = string_from_range(&cs, 0, cs.len() - 2);
            push_all(&mut line, name.as_str());
        } else {
            push_all(&mut line, job.command_string.as_str());
        }
        assert(line@ =~= job_line(all, finished@, i as int));
        lines.push(line);
        let is_running = str_eq(status.as_str(), "Running");
        let ghost rows_before = job_rows(kept@);
        if is_running {
            kept.push(RunningJob {
                job_number: job.job_number,
                process_id: job.process_id,
                command_string: job.command_string.clone(),
                status,
            });
            assert(job_rows(kept@) =~= rows_before.push(
                (all[i as int].job_number, all[i as int].process_id, all[i as int].command_string@, status_now(all, finished@, i as int)),
            ));
        }
        i = i + 1;
    }
    *jobs = kept;
    lines
}

} // verus!

verus! {

/// In the job table the most recent job is marked `+` and the one before it
/// `-`; every other line has no mark, its number followed directly by two
/// spaces and the status.
pub proof fn law_recency_marks(jobs: Seq<RunningJob>, finished: Seq<bool>)
    ensures
        forall|i: int|
            0 <= i < jobs.len() ==> #[trigger] job_line(jobs, finished, i) == seq!['['] + decimal(
                jobs[i].job_number as nat,
            ) + seq![']'] + (if i == jobs.len() - 1 {
                seq!['+']
            } else if i == jobs.len() - 2 {
                seq!['-']
            } else {
                Seq::<char>::empty()
            }) + seq![' ', ' '] + status_now(jobs, finished, i) + spaces(
                (24 - encode_utf8(status_now(jobs, finished, i)).len()) as nat,
            ) + shown_command(jobs[i].command_string@, status_now(jobs, finished, i)),
{
}

} // verus!
