use crate::codec::{decode_journal, encode_request, journal_bytes, request_bytes, Inputs, Receipt};
use crate::statement::{commit, commitment};
use vstd::prelude::*;
use vstd::string::*;
use vstd::utf8::*;

verus! {

/// The failures that a client is told of. Backend diagnostics never reach
/// the client: each failure is reported as one of these classes.
#[derive(Debug, Clone, Copy, PartialEq, Eq, Structural)]
pub enum RelayError {
    /// The request is malformed or lacks the program image; retrying it
    /// unchanged does not help.
    BadRequest,
    /// The checker rejected the solution against the theorem.
    InvalidProof,
    /// The proving backend failed on its own account; a retry may succeed.
    BackendError,
    /// All execution slots are taken; the client may retry later.
    CapacityExceeded,
}

/// The HTTP status that each failure is answered with.
pub open spec fn status_of(e: RelayError) -> u16 {
    match e {
        RelayError::BadRequest => 400,
        RelayError::InvalidProof => 422,
        RelayError::BackendError => 500,
        RelayError::CapacityExceeded => 503,
    }
}

impl RelayError {
    /// The HTTP status of this failure: a client error for a bad request or
    /// a rejected proof, a server error otherwise.
    pub fn status_code(&self) -> (r: u16)
        ensures
            r == status_of(*self),
            400 <= r < 500 <==> (*self == RelayError::BadRequest || *self
                == RelayError::InvalidProof),
            500 <= r < 600 <==> (*self == RelayError::BackendError || *self
                == RelayError::CapacityExceeded),
    {
        match self {
            RelayError::BadRequest => 400,
            RelayError::InvalidProof => 422,
            RelayError::BackendError => 500,
            RelayError::CapacityExceeded => 503,
        }
    }
}

/// A request to prove that `inputs.solution` proves `inputs.theorem`, with
/// the program image that is to decide it.
pub struct ProveRequest {
    pub inputs: Inputs,
    pub elf: Vec<u8>,
}

/// A validated job: its inputs and the commitment that a receipt for it must
/// carry.
pub struct Job {
    pub inputs: Inputs,
    pub commitment: [u8; 32],
}

/// What the proving backend reported for one execution.
pub enum BackendOutcome {
    /// A receipt was produced, with this journal and this proof artifact.
    Proved { journal: Vec<u8>, artifact: Vec<u8> },
    /// The proving program stopped because the checker rejected the
    /// statement.
    Rejected,
    /// The backend failed for a reason of its own.
    Failed,
}

/// Whether `needle` occurs in `hay` at position `i`.
pub open spec fn occurs_at(hay: Seq<u8>, needle: Seq<u8>, i: int) -> bool {
    0 <= i && i + needle.len() <= hay.len() && hay.subrange(i, i + needle.len()) == needle
}

/// Whether `needle` occurs anywhere in `hay`.
pub open spec fn occurs_in(hay: Seq<u8>, needle: Seq<u8>) -> bool {
    exists|i: int| occurs_at(hay, needle, i)
}

/// The words with which the proving program stops when the checker refuses
/// the statement. The backend reports the program's panic with its source
/// location first, so the words are looked for anywhere in the report.
pub open spec fn rejection_marker() -> Seq<char> {
    "invalid proof"@
}

/// Whether `b` holds the same bytes as `a`.
fn same_bytes(a: &[u8], b: &[u8]) -> (r: bool)
    ensures
        r == (a@ == b@),
{
    if a.len() != b.len() {
        return false;
    }
    let mut i: usize = 0;
    while i < a.len()
        invariant
            a@.len() == b@.len(),
            i <= a@.len(),
            forall|k: int| 0 <= k < i ==> a@[k] == b@[k],
        decreases a@.len() - i,
    {
        if a[i] != b[i] {
            return false;
        }
        i = i + 1;
    }
    assert(a@ =~= b@);
    true
}

/// Whether `needle` occurs in `hay` at position `at`.
fn matches_at(hay: &[u8], needle: &[u8], at: usize) -> (r: bool)
    requires
        at + needle@.len() <= hay@.len(),
    ensures
        r == occurs_at(hay@, needle@, at as int),
{
    let n = hay.len();
    let mut k: usize = 0;
    while k < needle.len()
        invariant
            n == hay@.len(),
            at + needle@.len() <= hay@.len(),
            k <= needle@.len(),
            forall|j: int| 0 <= j < k ==> hay@[at + j] == needle@[j],
        decreases needle@.len() - k,
    {
        if hay[at + k] != needle[k] {
            assert(hay@.subrange(at as int, at + needle@.len())[k as int] != needle@[k as int]);
            return false;
        }
        k = k + 1;
    }
    assert(hay@.subrange(at as int, at + needle@.len()) =~= needle@);
    true
}

/// Whether `needle` occurs anywhere in `hay`.
pub fn contains_bytes(hay: &[u8], needle: &[u8]) -> (r: bool)
    ensures
        r == occurs_in(hay@, needle@),
{
    if needle.len() > hay.len() {
        return false;
    }
    if needle.len() == 0 {
        assert(hay@.subrange(0, 0) =~= needle@);
        assert(occurs_at(hay@, needle@, 0));
        return true;
    }
    let bound = hay.len() - needle.len() + 1;
    let mut i: usize = 0;
    while i < bound
        invariant
            bound + needle@.len() == hay@.len() + 1,
            i <= bound,
            forall|j: int| 0 <= j < i ==> !occurs_at(hay@, needle@, j),
        decreases bound - i,
    {
        if matches_at(hay, needle, i) {
            return true;
        }
        i = i + 1;
    }
    assert forall|j: int| !occurs_at(hay@, needle@, j) by {
        if 0 <= j && j + needle@.len() <= hay@.len() {
            assert(j < bound);
        }
    }
    false
}

/// Tells apart, by the backend's failure message, a statement that the
/// checker refused from a failure of the backend itself.
pub fn classify_failure(message: &str) -> (r: BackendOutcome)
    ensures
        r is Rejected <==> occurs_in(encode_utf8(message@), encode_utf8(rejection_marker())),
        r is Failed <==> !occurs_in(encode_utf8(message@), encode_utf8(rejection_marker())),
{
    let marker = "invalid proof";
    proof {
        reveal_strlit("invalid proof");
    }
    if contains_bytes(message.as_bytes(), marker.as_bytes()) {
        BackendOutcome::Rejected
    } else {
        BackendOutcome::Failed
    }
}

/// Validates a request. The program image must be present and be the one
/// that this relay runs; the job then carries the commitment of its
/// solution.
pub fn validate(request: ProveRequest, image: &[u8]) -> (r: Result<Job, RelayError>)
    ensures
        r is Ok <==> (request.elf@.len() > 0 && request.elf@ == image@),
        r matches Err(e) ==> e == RelayError::BadRequest,
        r matches Ok(job) ==> job.inputs@ == request.inputs@ && job.commitment@ == commitment(
            request.inputs.solution@,
        ),
{
    if request.elf.len() == 0 || !same_bytes(request.elf.as_slice(), image) {
        return Err(RelayError::BadRequest);
    }
    let commitment = commit(&request.inputs.solution);
    Ok(Job { inputs: request.inputs, commitment })
}

/// The bytes handed to the proving program for a job.
pub fn executor_input(job: &Job) -> (r: Vec<u8>)
    ensures
        r@ == request_bytes(job.inputs@),
{
    encode_request(&job.inputs)
}

/// The journal that a receipt for `job` must carry.
pub open spec fn expected_journal(job: &Job) -> Seq<u8> {
    journal_bytes((job.inputs.sender@, job.commitment@))
}

/// Interprets the backend's outcome for a job. A receipt is given out only
/// when its journal attests this job's submitter and commitment; a journal
/// that attests anything else is a backend failure.
pub fn conclude(job: &Job, outcome: BackendOutcome) -> (r: Result<Receipt, RelayError>)
    ensures
        match outcome {
            BackendOutcome::Proved { journal, artifact } => if journal@ == expected_journal(job) {
                r matches Ok(rc) && rc@ == (job.inputs.sender@, job.commitment@, artifact@)
            } else {
                r matches Err(e) && e == RelayError::BackendError
            },
            BackendOutcome::Rejected => r matches Err(e) && e == RelayError::InvalidProof,
            BackendOutcome::Failed => r matches Err(e) && e == RelayError::BackendError,
        },
{
    match outcome {
        BackendOutcome::Proved { journal, artifact } => {
            match decode_journal(journal.as_slice()) {
                Ok(out) => {
                    if same_bytes(out.sender.as_slice(), job.inputs.sender.as_slice())
                        && same_bytes(out.solution_hash.as_slice(), job.commitment.as_slice()) {
                        Ok(
                            Receipt {
                                sender: job.inputs.sender,
                                solution_hash: job.commitment,
                                artifact,
                            },
                        )
                    } else {
                        Err(RelayError::BackendError)
                    }
                },
                Err(_) => Err(RelayError::BackendError),
            }
        },
        BackendOutcome::Rejected => Err(RelayError::InvalidProof),
        BackendOutcome::Failed => Err(RelayError::BackendError),
    }
}

/// Bounds the number of proofs that run at once.
pub struct Admission {
    in_flight: u64,
    capacity: u64,
}

impl View for Admission {
    /// The number of running proofs and the bound.
    type V = (nat, nat);

    closed spec fn view(&self) -> (nat, nat) {
        (self.in_flight as nat, self.capacity as nat)
    }
}

impl Admission {
    /// No more proofs run than the bound allows.
    pub open spec fn wf(&self) -> bool {
        self@.0 <= self@.1
    }

    /// A bound of `capacity` proofs at once, none running.
    pub fn new(capacity: u64) -> (r: Admission)
        ensures
            r.wf(),
            r@ == (0nat, capacity as nat),
    {
        Admission { in_flight: 0, capacity }
    }

    /// Takes a slot for one more proof, or reports that all are taken.
    pub fn try_acquire(&mut self) -> (r: Result<(), RelayError>)
        requires
            old(self).wf(),
        ensures
            final(self).wf(),
            old(self)@.0 < old(self)@.1 ==> r is Ok && final(self)@ == (old(self)@.0 + 1, old(
                self,
            )@.1),
            old(self)@.0 == old(self)@.1 ==> (r matches Err(e) && e == RelayError::CapacityExceeded
                && final(self)@ == old(self)@),
    {
        if self.in_flight < self.capacity {
            self.in_flight = self.in_flight + 1;
            Ok(())
        } else {
            Err(RelayError::CapacityExceeded)
        }
    }

    /// Gives back the slot of a proof that has ended.
    pub fn release(&mut self)
        requires
            old(self).wf(),
            old(self)@.0 > 0,
        ensures
            final(self).wf(),
            final(self)@ == ((old(self)@.0 - 1) as nat, old(self)@.1),
    {
        self.in_flight = self.in_flight - 1;
    }

    /// The number of proofs running.
    pub fn in_flight(&self) -> (r: u64)
        ensures
            r == self@.0,
    {
        self.in_flight
    }

    /// The bound.
    pub fn capacity(&self) -> (r: u64)
        ensures
            r == self@.1,
    {
        self.capacity
    }
}

} // verus!
