//! Staging of copies: each file is written beside its destination first, and
//! moved there once it is complete.

use crate::number::{decimal, decimal_chars, hex, hex_chars, law_decimal_round_trip};
use crate::path::{file_name, parent, path_file_name, path_parent};
use crate::text::{
    char_texts, copy_chars, extend, extend_str, from_chars, is_digit, join, joined, to_chars,
};
use vstd::prelude::*;

verus! {

/// The directories that are tried for one copy, at most.
pub const MAX_ATTEMPTS: u32 = 1024;

/// The path with the given components.
pub open spec fn path_of(parts: Seq<Seq<char>>) -> Seq<char> {
    if parts.len() > 0 && parts[0] == seq!['/'] {
        seq!['/'] + joined(parts.skip(1), seq!['/'])
    } else {
        joined(parts, seq!['/'])
    }
}

/// A path with one more component.
pub open spec fn path_with(base: Seq<char>, name: Seq<char>) -> Seq<char> {
    if base.len() == 0 || base.last() == '/' {
        base + name
    } else {
        base + seq!['/'] + name
    }
}

fn make_path(parts: &Vec<Vec<char>>) -> (r: Vec<char>)
    ensures
        r@ == path_of(char_texts(parts@)),
{
    let ghost all = char_texts(parts@);
    proof {
        reveal_strlit("/");
        assert("/"@ =~= seq!['/']);
        assert(all.len() == parts@.len());
        if parts@.len() > 0 {
            assert(all[0] == parts@[0]@);
        }
    }
    if parts.len() > 0 && parts[0].len() == 1 && parts[0][0] == '/' {
        assert(all[0] =~= seq!['/']);
        let mut rest: Vec<Vec<char>> = Vec::new();
        let mut i: usize = 1;
        while i < parts.len()
            invariant
                1 <= i <= parts@.len(),
                all == char_texts(parts@),
                char_texts(rest@) =~= all.subrange(1, i as int),
            decreases parts@.len() - i,
        {
            let ghost before = char_texts(rest@);
            let part = copy_chars(&parts[i]);
            let ghost p = part@;
            rest.push(part);
            proof {
                assert(char_texts(rest@) =~= before.push(p));
                assert(all[i as int] == p);
            }
            i = i + 1;
        }
        assert(all.subrange(1, all.len() as int) =~= all.skip(1));
        let mut r: Vec<char> = Vec::new();
        r.push('/');
        let text = join(&rest, "/");
        extend(&mut r, &text);
        assert(r@ =~= path_of(all));
        r
    } else {
        join(parts, "/")
    }
}

fn append_name(base: &Vec<char>, name: &Vec<char>) -> (r: Vec<char>)
    ensures
        r@ == path_with(base@, name@),
{
    let mut r = copy_chars(base);
    let n: usize = r.len();
    if n > 0 && r[n - 1] != '/' {
        r.push('/');
    }
    extend(&mut r, name);
    assert(r@ =~= path_with(base@, name@));
    r
}

/// The names of staging directories that a run uses.
#[derive(Debug)]
pub struct CopyStager {
    pid: u32,
    run_nonce: u128,
    next_seq: u64,
}

/// A copy that is being staged.
#[derive(Debug)]
pub struct CopyStage {
    temp_dir: String,
    temp_path: String,
}

/// How a staged copy ended.
#[derive(Debug)]
pub enum CopyFinalizeOutcome {
    Committed,
    SkippedConflict { reason: String },
}

/// What became of an attempt to make a staging directory.
#[derive(Clone, Copy, Debug, PartialEq, Eq, Structural)]
pub enum StageAttempt {
    Created,
    AlreadyExists,
    Failed,
}

/// What to do behind an attempt to make a staging directory.
#[derive(Clone, Copy, Debug, PartialEq, Eq, Structural)]
pub enum StageStep {
    /// The stage can be used.
    Use,
    /// Another stage has to be tried.
    Retry,
    /// The directory cannot be made.
    Fail,
    /// Too many directories were there already.
    Exhausted,
}

/// What is known of a destination before a staged copy is moved there.
#[derive(Clone, Copy, Debug, PartialEq, Eq, Structural)]
pub enum DestinationState {
    Present,
    Absent,
    Unknown,
}

/// What to do with a staged copy.
#[derive(Debug)]
pub enum FinalizeStep {
    /// Move it to its destination.
    Rename,
    /// Leave the destination as it is.
    Skip(CopyFinalizeOutcome),
    /// The destination cannot be looked at.
    Fail,
}

/// The name of the staging directory with a number.
pub open spec fn stage_name(pid: u32, nonce: u128, seq: u64) -> Seq<char> {
    ".nightindex-copy-p"@ + decimal(pid as nat) + "-"@ + hex(nonce as nat) + "-"@ + decimal(
        seq as nat,
    )
}

impl CopyStager {
    pub closed spec fn pid(&self) -> u32 {
        self.pid
    }

    pub closed spec fn nonce(&self) -> u128 {
        self.run_nonce
    }

    /// The number of the next staging directory.
    pub closed spec fn seq(&self) -> u64 {
        self.next_seq
    }

    /// The names of a run, told from those of others by the process and a number.
    pub fn new(pid: u32, run_nonce: u128) -> (r: Self)
        ensures
            r.pid() == pid,
            r.nonce() == run_nonce,
            r.seq() == 0,
    {
        CopyStager { pid, run_nonce, next_seq: 0 }
    }

    /// The next stage for a destination: a fresh directory beside it, and the
    /// name of the destination in it. A destination without a directory has none.
    pub fn stage(&mut self, destination: &str) -> (r: Option<CopyStage>)
        requires
            old(self).seq() < u64::MAX,
        ensures
            final(self).pid() == old(self).pid(),
            final(self).nonce() == old(self).nonce(),
            match path_parent(destination@) {
                Some(parts) => {
                    let dir = path_with(
                        path_of(parts),
                        stage_name(old(self).pid(), old(self).nonce(), old(self).seq()),
                    );
                    &&& r is Some
                    &&& final(self).seq() == old(self).seq() + 1
                    &&& r->0.dir() == dir
                    &&& r->0.path() == path_with(
                        dir,
                        match path_file_name(destination@) {
                            Some(name) => name,
                            None => "copy"@,
                        },
                    )
                },
                None => r is None && final(self).seq() == old(self).seq(),
            },
    {
        let parts = match parent(destination) {
            Some(parts) => parts,
            None => {
                return None;
            },
        };
        let name = match file_name(destination) {
            Some(name) => name,
            None => to_chars("copy"),
        };
        let seq: u64 = self.next_seq;
        self.next_seq = seq + 1;
        let mut dir_name = to_chars(".nightindex-copy-p");
        extend(&mut dir_name, &decimal_chars(self.pid as u128));
        extend_str(&mut dir_name, "-");
        extend(&mut dir_name, &hex_chars(self.run_nonce));
        extend_str(&mut dir_name, "-");
        extend(&mut dir_name, &decimal_chars(seq as u128));
        let base = make_path(&parts);
        let dir = append_name(&base, &dir_name);
        let path = append_name(&dir, &name);
        Some(CopyStage { temp_dir: from_chars(&dir), temp_path: from_chars(&path) })
    }
}

/// What to do behind an attempt.
pub open spec fn step_behind(attempt: u32, outcome: StageAttempt) -> StageStep {
    match outcome {
        StageAttempt::Created => StageStep::Use,
        StageAttempt::Failed => StageStep::Fail,
        StageAttempt::AlreadyExists => if attempt < MAX_ATTEMPTS {
            StageStep::Retry
        } else {
            StageStep::Exhausted
        },
    }
}

/// What to do behind the attempt with the given number, counted from one.
pub fn stage_step(attempt: u32, outcome: StageAttempt) -> (r: StageStep)
    ensures
        r == step_behind(attempt, outcome),
        r == (match outcome {
            StageAttempt::Created => StageStep::Use,
            StageAttempt::Failed => StageStep::Fail,
            StageAttempt::AlreadyExists => if attempt < MAX_ATTEMPTS {
                StageStep::Retry
            } else {
                StageStep::Exhausted
            },
        }),
{
    match outcome {
        StageAttempt::Created => StageStep::Use,
        StageAttempt::Failed => StageStep::Fail,
        StageAttempt::AlreadyExists => {
            if attempt < MAX_ATTEMPTS {
                StageStep::Retry
            } else {
                StageStep::Exhausted
            }
        },
    }
}

impl CopyStage {
    /// The staging directory.
    pub closed spec fn dir(&self) -> Seq<char> {
        self.temp_dir@
    }

    /// The file in the staging directory.
    pub closed spec fn path(&self) -> Seq<char> {
        self.temp_path@
    }

    pub fn temp_dir(&self) -> (r: &str)
        ensures
            r@ == self.dir(),
    {
        self.temp_dir.as_str()
    }

    pub fn temp_path(&self) -> (r: &str)
        ensures
            r@ == self.path(),
    {
        self.temp_path.as_str()
    }

    /// What to do with a staged copy: without leave to overwrite, a destination
    /// that has appeared meanwhile is left as it is.
    pub fn finalize(&self, destination: &str, overwrite: bool, state: DestinationState) -> (r:
        FinalizeStep)
        ensures
            r is Rename <==> overwrite || state == DestinationState::Absent,
            r is Fail <==> !overwrite && state == DestinationState::Unknown,
            r is Skip <==> !overwrite && state == DestinationState::Present,
            r is Skip ==> (r->Skip_0) is SkippedConflict && (r->Skip_0)->reason@
                == "destination appeared before finalization: "@ + destination@,
    {
        if overwrite {
            return FinalizeStep::Rename;
        }
        match state {
            DestinationState::Present => {
                let mut reason = to_chars("destination appeared before finalization: ");
                extend_str(&mut reason, destination);
                FinalizeStep::Skip(
                    CopyFinalizeOutcome::SkippedConflict { reason: from_chars(&reason) },
                )
            },
            DestinationState::Absent => FinalizeStep::Rename,
            DestinationState::Unknown => FinalizeStep::Fail,
        }
    }
}

/// Stages with different numbers have different names.
pub proof fn law_stage_names_distinct(pid: u32, nonce: u128, a: u64, b: u64)
    requires
        stage_name(pid, nonce, a) == stage_name(pid, nonce, b),
    ensures
        a == b,
{
    let lead = ".nightindex-copy-p"@ + decimal(pid as nat) + "-"@ + hex(nonce as nat) + "-"@;
    assert(stage_name(pid, nonce, a) == lead + decimal(a as nat));
    assert(stage_name(pid, nonce, b) == lead + decimal(b as nat));
    assert((lead + decimal(a as nat)).skip(lead.len() as int) =~= decimal(a as nat));
    assert((lead + decimal(b as nat)).skip(lead.len() as int) =~= decimal(b as nat));
    law_decimal_round_trip(a as nat);
    law_decimal_round_trip(b as nat);
}

/// The number at the end of a text tells it from others.
proof fn lemma_numbers_at_the_end(x: Seq<char>, y: Seq<char>, a: nat, b: nat)
    requires
        x + seq!['-'] + decimal(a) == y + seq!['-'] + decimal(b),
    ensures
        a == b,
{
    let da = decimal(a);
    let db = decimal(b);
    let s = x + seq!['-'] + da;
    let t = y + seq!['-'] + db;
    law_decimal_round_trip(a);
    law_decimal_round_trip(b);
    assert(s.len() == x.len() + 1 + da.len());
    assert(t.len() == y.len() + 1 + db.len());
    assert(s[x.len() as int] == '-');
    assert(t[y.len() as int] == '-');
    if da.len() < db.len() {
        let k = x.len() - y.len() - 1;
        assert(t[x.len() as int] == db[k]);
        assert(is_digit(db[k]));
    } else if db.len() < da.len() {
        let k = y.len() - x.len() - 1;
        assert(s[y.len() as int] == da[k]);
        assert(is_digit(da[k]));
    }
    assert(s.skip(x.len() as int + 1) =~= da);
    assert(t.skip(y.len() as int + 1) =~= db);
}

/// Two stages of a run have different directories, wherever their destinations
/// are.
pub proof fn law_stages_are_apart(
    base1: Seq<char>,
    base2: Seq<char>,
    pid: u32,
    nonce: u128,
    a: u64,
    b: u64,
)
    requires
        path_with(base1, stage_name(pid, nonce, a)) == path_with(base2, stage_name(pid, nonce, b)),
    ensures
        a == b,
{
    reveal_strlit("-");
    let lead = ".nightindex-copy-p"@ + decimal(pid as nat) + "-"@ + hex(nonce as nat);
    let x = path_with(base1, lead);
    let y = path_with(base2, lead);
    assert("-"@ =~= seq!['-']);
    assert(path_with(base1, stage_name(pid, nonce, a)) =~= x + seq!['-'] + decimal(a as nat));
    assert(path_with(base2, stage_name(pid, nonce, b)) =~= y + seq!['-'] + decimal(b as nat));
    lemma_numbers_at_the_end(x, y, a as nat, b as nat);
}

} // verus!
