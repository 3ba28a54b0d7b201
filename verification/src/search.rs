use vstd::prelude::*;

verus! {

/// How one spawn attempt in one path directory ended, as the operating
/// system reported it.
#[derive(Debug, PartialEq, Eq, Clone, Copy)]
pub enum SpawnOutcome {
    /// A process was created and waited on; the raw wait status is carried.
    Ran(i32),
    /// A candidate exists here but may not be executed.
    NoAccess,
    /// No executable candidate here; scanning continues.
    Failed,
}

/// The verdict over a whole sequence of spawn attempts.
#[derive(Debug, PartialEq, Eq, Clone, Copy)]
pub enum SearchVerdict {
    /// The command ran from the directory at this index; `status` is the
    /// exit status decoded from its wait status.
    Found { index: usize, status: i32 },
    /// Nothing ran, but some candidate existed without execute permission:
    /// the shell reports it and sets exit status 126.
    NoAccess,
    /// Nothing ran and no candidate was found: exit status 127.
    NotFound,
}

/// The candidate file name for a binary name in one path directory, as a
/// path join behaves: an absolute name stands alone, an empty directory
/// leaves the name bare, and otherwise a single `/` separates the two.
pub open spec fn spec_candidate(dir: Seq<char>, name: Seq<char>) -> Seq<char> {
    if name.len() > 0 && name[0] == '/' {
        name
    } else if dir.len() == 0 {
        name
    } else if dir.last() == '/' {
        dir + name
    } else {
        dir + seq!['/'] + name
    }
}

/// Joins one path directory and a binary name into the candidate to spawn.
pub fn candidate_path(dir: &str, name: &str) -> (r: String)
    ensures
        r@ == spec_candidate(dir@, name@),
{
    let nn = name.unicode_len();
    let nd = dir.unicode_len();
    if nn > 0 && name.get_char(0) == '/' {
        String::from_str(name)
    } else if nd == 0 {
        String::from_str(name)
    } else if dir.get_char(nd - 1) == '/' {
        proof {
            assert(dir@.last() == dir@[nd - 1]);
        }
        let mut r = String::from_str(dir);
        r.append(name);
        r
    } else {
        proof {
            assert(dir@.last() == dir@[nd - 1]);
        }
        let mut r = String::from_str(dir);
        r.append("/");
        r.append(name);
        proof {
            reveal_strlit("/");
            assert("/"@ =~= seq!['/']);
            assert(r@ =~= dir@ + seq!['/'] + name@);
        }
        r
    }
}

/// The argv handed to the spawned process: the candidate path in slot 0,
/// the statement's remaining tokens after it.
pub fn spawn_argv(candidate: &str, argv: &Vec<String>) -> (r: Vec<String>)
    requires
        argv@.len() >= 1,
    ensures
        r.deep_view() == seq![candidate@] + argv.deep_view().drop_first(),
{
    let ghost av = argv.deep_view();
    let mut r: Vec<String> = Vec::new();
    r.push(String::from_str(candidate));
    proof {
        assert(r.deep_view() =~= seq![candidate@]);
    }
    let mut j: usize = 1;
    while j < argv.len()
        invariant
            1 <= j <= argv@.len(),
            av == argv.deep_view(),
            av.len() == argv@.len(),
            r.deep_view() == seq![candidate@] + av.subrange(1, j as int),
        decreases argv@.len() - j,
    {
        let ghost r_old = r.deep_view();
        r.push(argv[j].clone());
        proof {
            assert(av[j as int] == argv@[j as int]@);
            assert(r.deep_view() =~= r_old.push(av[j as int]));
            assert(seq![candidate@] + av.subrange(1, j + 1) =~= r.deep_view());
        }
        j = j + 1;
    }
    proof {
        assert(av.subrange(1, av.len() as int) =~= av.drop_first());
    }
    r
}

/// The index of the first attempt that ran a process, if any: the scan
/// stops at the first success.
pub open spec fn first_ran(outcomes: Seq<SpawnOutcome>, i: int) -> Option<int>
    decreases outcomes.len() - i when 0 <= i <= outcomes.len()
{
    if i >= outcomes.len() {
        None
    } else {
        match outcomes[i] {
            SpawnOutcome::Ran(_) => Some(i),
            _ => first_ran(outcomes, i + 1),
        }
    }
}

pub proof fn lemma_first_ran_props(outcomes: Seq<SpawnOutcome>, i: int)
    requires
        0 <= i <= outcomes.len(),
    ensures
        match first_ran(outcomes, i) {
            Some(j) => i <= j < outcomes.len() && outcomes[j] is Ran && (forall|k: int|
                i <= k < j ==> !(#[trigger] outcomes[k] is Ran)),
            None => forall|k: int| i <= k < outcomes.len() ==> !(#[trigger] outcomes[k] is Ran),
        },
    decreases outcomes.len() - i,
{
    if i < outcomes.len() && !(outcomes[i] is Ran) {
        lemma_first_ran_props(outcomes, i + 1);
    }
}

/// Whether some attempt found a candidate it was not allowed to execute.
pub open spec fn any_no_access(outcomes: Seq<SpawnOutcome>) -> bool {
    exists|j: int| 0 <= j < outcomes.len() && outcomes[j] is NoAccess
}

/// The wait status of an attempt that ran, zero otherwise.
pub open spec fn ran_status(o: SpawnOutcome) -> i32 {
    match o {
        SpawnOutcome::Ran(w) => w,
        _ => 0,
    }
}

/// The exit status encoded in a wait status: bits 8 to 15.
pub open spec fn spec_wait_exit_status(w: i32) -> i32 {
    (w >> 8) & 0xff
}

/// Relies on `libc::WEXITSTATUS`: it decodes a wait status by shifting out
/// the low byte and masking to eight bits.
#[verifier::external_body]
fn wait_exit_status(w: i32) -> (r: i32)
    ensures
        r == spec_wait_exit_status(w),
{
    libc::WEXITSTATUS(w)
}

/// The verdict the shell owes a sequence of attempts: the first success
/// wins and carries its decoded exit status; otherwise a permission
/// failure anywhere dominates a plain miss.
pub open spec fn spec_verdict(outcomes: Seq<SpawnOutcome>) -> SearchVerdict {
    match first_ran(outcomes, 0) {
        Some(i) => SearchVerdict::Found {
            index: i as usize,
            status: spec_wait_exit_status(ran_status(outcomes[i])),
        },
        None => {
            if any_no_access(outcomes) {
                SearchVerdict::NoAccess
            } else {
                SearchVerdict::NotFound
            }
        },
    }
}

/// Classifies a whole sequence of spawn attempts.
pub fn classify_attempts(outcomes: &Vec<SpawnOutcome>) -> (r: SearchVerdict)
    ensures
        r == spec_verdict(outcomes@),
{
    let mut i: usize = 0;
    let mut no_access = false;
    while i < outcomes.len()
        invariant
            i <= outcomes@.len(),
            first_ran(outcomes@, 0) == first_ran(outcomes@, i as int),
            no_access == (exists|j: int| 0 <= j < i && outcomes@[j] is NoAccess),
        decreases outcomes@.len() - i,
    {
        match outcomes[i] {
            SpawnOutcome::Ran(w) => {
                let status = wait_exit_status(w);
                return SearchVerdict::Found { index: i, status };
            },
            SpawnOutcome::NoAccess => {
                proof {
                    assert(outcomes@[i as int] is NoAccess);
                }
                no_access = true;
                i = i + 1;
            },
            SpawnOutcome::Failed => {
                i = i + 1;
            },
        }
    }
    if no_access {
        SearchVerdict::NoAccess
    } else {
        SearchVerdict::NotFound
    }
}

/// The exit status a verdict sets: the child's own status after a
/// success, 126 where a candidate was found but not executable, and 127
/// where the command was not found.
pub fn verdict_status(v: &SearchVerdict) -> (r: i32)
    ensures
        r == (match v {
            SearchVerdict::Found { status, .. } => *status,
            SearchVerdict::NoAccess => 126i32,
            SearchVerdict::NotFound => 127i32,
        }),
{
    match v {
        SearchVerdict::Found { status, .. } => *status,
        SearchVerdict::NoAccess => 126,
        SearchVerdict::NotFound => 127,
    }
}

} // verus!
