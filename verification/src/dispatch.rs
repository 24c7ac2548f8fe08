//! Planning a run: one session for every source image and every server.

use crate::files::{file_views, ImageFile, ImageFileView};
use crate::metrics::{average_elapsed, total_elapsed};
use crate::naming::{
    encoded_filename, lemma_encoded_filenames_distinct, sanitized, spells_out, ArtifactFormat,
};
use crate::session::{OutcomeView, TaskView, TransferTask};
use vstd::prelude::*;
use vstd::string::*;

verus! {

/// The contents of a list of server addresses.
pub open spec fn server_views(servers: Seq<String>) -> Seq<Seq<char>> {
    Seq::new(servers.len(), |i: int| servers[i]@)
}

/// The contents of a list of tasks.
pub open spec fn task_views(tasks: Seq<TransferTask>) -> Seq<TaskView> {
    Seq::new(tasks.len(), |i: int| tasks[i]@)
}

/// The place, in a plan for `servers` servers, of the session that sends the
/// file at `file` to the server at `server`.
pub open spec fn slot(file: int, server: int, servers: int) -> int {
    file * servers + server
}

/// Whether `tasks` is the plan for `files` and `servers`: one pending task
/// for every file and every server, file by file, and for each file server
/// by server.
pub open spec fn is_plan(
    tasks: Seq<TaskView>,
    files: Seq<ImageFileView>,
    servers: Seq<Seq<char>>,
    max_attempts: nat,
) -> bool {
    &&& tasks.len() == files.len() * servers.len()
    &&& forall|f: int, s: int|
        0 <= f < files.len() && 0 <= s < servers.len() ==> 0 <= slot(f, s, servers.len() as int)
            < tasks.len() && #[trigger] tasks[slot(f, s, servers.len() as int)]
            == TaskView::pending(files[f], servers[s], max_attempts)
}

/// The place after the last server of one file is the place of the first
/// server of the next file.
proof fn lemma_next_file(file: int, servers: int)
    ensures
        slot(file, servers, servers) == slot(file + 1, 0, servers),
{
    assert(file * servers + servers == (file + 1) * servers) by (nonlinear_arith);
}

/// Plans a run: a pending task for every pair of a source image and a
/// server, each allowing `max_attempts` attempts.
pub fn plan_tasks(files: &Vec<ImageFile>, servers: &Vec<String>, max_attempts: u32) -> (tasks: Vec<
    TransferTask,
>)
    ensures
        is_plan(task_views(tasks@), file_views(files@), server_views(servers@), max_attempts as nat),
        tasks@.len() == files@.len() * servers@.len(),
        forall|k: int| 0 <= k < tasks@.len() ==> (#[trigger] tasks@[k])@.wf(),
{
    let ghost fv = file_views(files@);
    let ghost sv = server_views(servers@);
    let ghost m = servers@.len() as int;
    let mut tasks: Vec<TransferTask> = Vec::new();
    let mut f: usize = 0;
    while f < files.len()
        invariant
            f <= files.len(),
            fv == file_views(files@),
            sv == server_views(servers@),
            m == servers@.len(),
            tasks@.len() == slot(f as int, 0, m),
            forall|a: int, b: int|
                0 <= a < f && 0 <= b < m ==> 0 <= slot(a, b, m) < tasks@.len() && (
                #[trigger] tasks@[slot(a, b, m)])@ == TaskView::pending(
                    fv[a],
                    sv[b],
                    max_attempts as nat,
                ),
            forall|k: int| 0 <= k < tasks@.len() ==> (#[trigger] tasks@[k])@.wf(),
        decreases files.len() - f,
    {
        let mut s: usize = 0;
        while s < servers.len()
            invariant
                f < files.len(),
                s <= servers.len(),
                fv == file_views(files@),
                sv == server_views(servers@),
                m == servers@.len(),
                tasks@.len() == slot(f as int, s as int, m),
                forall|a: int, b: int|
                    (0 <= a < f && 0 <= b < m) || (a == f && 0 <= b < s) ==> 0 <= slot(a, b, m)
                        < tasks@.len() && (#[trigger] tasks@[slot(a, b, m)])@
                        == TaskView::pending(fv[a], sv[b], max_attempts as nat),
                forall|k: int| 0 <= k < tasks@.len() ==> (#[trigger] tasks@[k])@.wf(),
            decreases servers.len() - s,
        {
            let ghost before = tasks@;
            let task = TransferTask::new(files[f].duplicate(), servers[s].clone(), max_attempts);
            tasks.push(task);
            assert forall|a: int, b: int|
                (0 <= a < f && 0 <= b < m) || (a == f && 0 <= b < s + 1) implies 0 <= slot(a, b, m)
                    < tasks@.len() && (#[trigger] tasks@[slot(a, b, m)])@ == TaskView::pending(
                fv[a],
                sv[b],
                max_attempts as nat,
            ) by {
                if a == f && b == s {
                    assert(slot(a, b, m) == before.len());
                } else {
                    assert(before[slot(a, b, m)]@ == TaskView::pending(
                        fv[a],
                        sv[b],
                        max_attempts as nat,
                    ));
                    assert(tasks@[slot(a, b, m)] == before[slot(a, b, m)]);
                }
            }
            s = s + 1;
        }
        proof {
            lemma_next_file(f as int, m);
        }
        f = f + 1;
    }
    proof {
        let tv = task_views(tasks@);
        assert(slot(f as int, 0, m) == files@.len() * servers@.len());
        assert forall|a: int, b: int| 0 <= a < fv.len() && 0 <= b < sv.len() implies 0 <= slot(
            a,
            b,
            sv.len() as int,
        ) < tv.len() && #[trigger] tv[slot(a, b, sv.len() as int)] == TaskView::pending(
            fv[a],
            sv[b],
            max_attempts as nat,
        ) by {
            assert(tasks@[slot(a, b, m)]@ == TaskView::pending(fv[a], sv[b], max_attempts as nat));
        }
    }
    tasks
}

/// A run has one session for every file and every server, so where every
/// session reports one outcome the average divides the total time by the
/// number of files times the number of servers; a run without files has no
/// session and no average.
pub proof fn lemma_average_divides_by_sessions(
    tasks: Seq<TaskView>,
    files: Seq<ImageFileView>,
    servers: Seq<Seq<char>>,
    max_attempts: nat,
    outcomes: Seq<OutcomeView>,
)
    requires
        is_plan(tasks, files, servers, max_attempts),
        outcomes.len() == tasks.len(),
    ensures
        tasks.len() == files.len() * servers.len(),
        outcomes.len() > 0 ==> average_elapsed(outcomes) == Some(
            total_elapsed(outcomes) / (files.len() * servers.len()),
        ),
        outcomes.len() == 0 ==> average_elapsed(outcomes) is None,
        files.len() == 0 ==> outcomes.len() == 0,
{
}

/// Two sessions of a plan that differ in the file or in the server store
/// their artifacts under different names, whatever the artifacts are,
/// provided that the files have different names, that the servers stay
/// different once sanitized, and that neither session's marker and server
/// address spell out the rest of the other's file name.
pub proof fn lemma_sessions_write_apart(
    files: Seq<ImageFileView>,
    servers: Seq<Seq<char>>,
    file_a: int,
    server_a: int,
    format_a: ArtifactFormat,
    file_b: int,
    server_b: int,
    format_b: ArtifactFormat,
)
    requires
        0 <= file_a < files.len(),
        0 <= file_b < files.len(),
        0 <= server_a < servers.len(),
        0 <= server_b < servers.len(),
        file_a != file_b || server_a != server_b,
        forall|i: int, j: int|
            0 <= i < j < files.len() ==> (#[trigger] files[i]).base_name != (
            #[trigger] files[j]).base_name,
        forall|i: int, j: int|
            0 <= i < j < servers.len() ==> sanitized(#[trigger] servers[i]) != sanitized(
                #[trigger] servers[j],
            ),
        !spells_out(
            files[file_a].base_name,
            servers[server_a],
            files[file_b].base_name,
            servers[server_b],
        ),
        !spells_out(
            files[file_b].base_name,
            servers[server_b],
            files[file_a].base_name,
            servers[server_a],
        ),
    ensures
        encoded_filename(files[file_a].base_name, servers[server_a], format_a) != encoded_filename(
            files[file_b].base_name,
            servers[server_b],
            format_b,
        ),
{
    if file_a != file_b {
        if file_a < file_b {
            assert(files[file_a].base_name != files[file_b].base_name);
        } else {
            assert(files[file_b].base_name != files[file_a].base_name);
        }
    } else {
        if server_a < server_b {
            assert(sanitized(servers[server_a]) != sanitized(servers[server_b]));
        } else {
            assert(sanitized(servers[server_b]) != sanitized(servers[server_a]));
        }
    }
    lemma_encoded_filenames_distinct(
        files[file_a].base_name,
        servers[server_a],
        format_a,
        files[file_b].base_name,
        servers[server_b],
        format_b,
    );
}

} // verus!
