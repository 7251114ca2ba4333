//! One blocking inspection at a time. A replacement waits for its cancelled
//! predecessor; only the newest request can publish.
//!
//! The caller owns the worker threads. The loader decides which request runs,
//! which job is cancelled and which outcome is published.
use vstd::prelude::*;

verus! {

#[derive(Clone, Copy, Debug, PartialEq, Eq, Structural)]
pub enum Purpose {
    Open,
    Replay,
}

/// Where the loader stands; `job` identifies the caller's worker.
pub enum State<R, O> {
    Idle,
    /// A request was handed out to be spawned and its worker is not known yet.
    Starting { purpose: Purpose },
    Working { job: u64, purpose: Purpose },
    /// A cancelled worker that must finish before its replacement starts.
    Retiring { job: u64, next: Option<(R, Purpose)> },
    Ready { purpose: Purpose, outcome: O },
}

/// What the caller must do after `begin`.
pub enum Begin<R> {
    /// Spawn a worker for this request and report it through `spawned`.
    Spawn(R, Purpose),
    /// Signal cancellation to this worker; the request waits for it.
    Cancel(u64),
    /// The request replaced another waiting one.
    Queued,
}

/// What the caller must do after `poll`.
pub enum Poll<R, O> {
    Pending,
    /// Deliver this outcome of the newest request.
    Publish(Purpose, O),
    /// The retired worker finished: spawn its replacement and report it through `spawned`.
    Spawn(R, Purpose),
}

pub struct Loader<R, O> {
    state: State<R, O>,
}

pub open spec fn loading_spec<R, O>(state: State<R, O>) -> bool {
    match state {
        State::Idle => false,
        State::Starting { .. } | State::Working { .. } | State::Ready { .. } => true,
        State::Retiring { next, .. } => next is Some,
    }
}

/// The state after a request begins: a running or retiring worker is retired with the
/// request waiting for it; otherwise the request starts.
pub open spec fn after_begin<R, O>(state: State<R, O>, request: R, purpose: Purpose) -> State<R, O> {
    match state {
        State::Working { job, .. } => State::Retiring { job, next: Some((request, purpose)) },
        State::Retiring { job, .. } => State::Retiring { job, next: Some((request, purpose)) },
        _ => State::Starting { purpose },
    }
}

/// The state after requests begin one after another.
pub open spec fn begin_all<R, O>(state: State<R, O>, requests: Seq<(R, Purpose)>) -> State<R, O>
    decreases requests.len(),
{
    if requests.len() == 0 {
        state
    } else {
        after_begin(begin_all(state, requests.drop_last()), requests.last().0, requests.last().1)
    }
}

/// While a worker runs, any run of new requests retires it, and only the newest request
/// waits to be spawned: the retired worker's outcome is never published (see `poll`,
/// which hands out only the waiting request once the retired worker finished), and no
/// second worker is spawned while it runs.
pub proof fn only_the_newest_request_waits<R, O>(job: u64, purpose: Purpose, requests: Seq<(R, Purpose)>)
    requires
        requests.len() > 0,
    ensures
        begin_all(State::<R, O>::Working { job, purpose }, requests) == (State::<R, O>::Retiring {
            job,
            next: Some(requests.last()),
        }),
    decreases requests.len(),
{
    if requests.len() > 1 {
        only_the_newest_request_waits::<R, O>(job, purpose, requests.drop_last());
    } else {
        assert(requests.drop_last().len() == 0);
    }
    let (request, kind) = requests.last();
    assert(requests.last() == (request, kind));
    let working = State::<R, O>::Working { job, purpose };
    let before = begin_all(working, requests.drop_last());
    assert(before is Working || before is Retiring);
    assert(begin_all(working, requests) == after_begin(before, request, kind));
}

impl<R, O> Loader<R, O> {
    pub closed spec fn state(&self) -> State<R, O> {
        self.state
    }

    pub fn new() -> (loader: Self)
        ensures
            loader.state() == State::<R, O>::Idle,
    {
        Loader { state: State::Idle }
    }

    pub fn loading(&self) -> (loading: bool)
        ensures
            loading == loading_spec(self.state()),
    {
        match &self.state {
            State::Idle => false,
            State::Starting { .. } | State::Working { .. } | State::Ready { .. } => true,
            State::Retiring { next, .. } => next.is_some(),
        }
    }

    /// Request an inspection. A running one is cancelled and replaced once it finished;
    /// a waiting replacement is replaced; an undelivered outcome is discarded.
    pub fn begin(&mut self, request: R, purpose: Purpose) -> (step: Begin<R>)
        requires
            !(old(self).state() is Starting),
        ensures
            match old(self).state() {
                State::Working { job, .. } => step == Begin::<R>::Cancel(job) && final(self).state()
                    == State::<R, O>::Retiring { job, next: Some((request, purpose)) },
                State::Retiring { job, .. } => step == Begin::<R>::Queued && final(self).state()
                    == State::<R, O>::Retiring { job, next: Some((request, purpose)) },
                _ => step == Begin::Spawn(request, purpose) && final(self).state() == State::<
                    R,
                    O,
                >::Starting { purpose },
            },
            final(self).state() == after_begin(old(self).state(), request, purpose),
    {
        let mut state = State::Idle;
        std::mem::swap(&mut state, &mut self.state);
        match state {
            State::Working { job, .. } => {
                self.state = State::Retiring { job, next: Some((request, purpose)) };
                Begin::Cancel(job)
            },
            State::Retiring { job, .. } => {
                self.state = State::Retiring { job, next: Some((request, purpose)) };
                Begin::Queued
            },
            _ => {
                self.state = State::Starting { purpose };
                Begin::Spawn(request, purpose)
            },
        }
    }

    /// The caller spawned the handed-out request: its worker, or the spawn failure
    /// as the outcome to deliver.
    pub fn spawned(&mut self, worker: Result<u64, O>)
        requires
            old(self).state() is Starting,
        ensures
            ({
                let purpose = old(self).state()->Starting_purpose;
                match worker {
                    Ok(job) => final(self).state() == State::<R, O>::Working { job, purpose },
                    Err(outcome) => final(self).state() == State::<R, O>::Ready {
                        purpose,
                        outcome,
                    },
                }
            }),
    {
        let purpose = match self.state {
            State::Starting { purpose } => purpose,
            _ => Purpose::Open,
        };
        self.state = match worker {
            Ok(job) => State::Working { job, purpose },
            Err(outcome) => State::Ready { purpose, outcome },
        };
    }

    /// Cancel the running or waiting request. Returns the worker to signal.
    pub fn cancel(&mut self) -> (signal: Option<u64>)
        requires
            !(old(self).state() is Starting),
        ensures
            match old(self).state() {
                State::Working { job, .. } => signal == Some(job) && final(self).state() == State::<
                    R,
                    O,
                >::Retiring { job, next: None },
                State::Retiring { job, .. } => signal is None && final(self).state() == State::<
                    R,
                    O,
                >::Retiring { job, next: None },
                _ => signal is None && final(self).state() == State::<R, O>::Idle,
            },
    {
        let mut state = State::Idle;
        std::mem::swap(&mut state, &mut self.state);
        match state {
            State::Working { job, .. } => {
                self.state = State::Retiring { job, next: None };
                Some(job)
            },
            State::Retiring { job, .. } => {
                self.state = State::Retiring { job, next: None };
                None
            },
            _ => None,
        }
    }

    /// Advance with the current worker's result, if it finished.
    pub fn poll(&mut self, finished: Option<O>) -> (step: Poll<R, O>)
        requires
            !(old(self).state() is Starting),
        ensures
            match old(self).state() {
                State::Idle => step == Poll::<R, O>::Pending && final(self).state() == State::<
                    R,
                    O,
                >::Idle,
                State::Ready { purpose, outcome } => step == Poll::<R, O>::Publish(purpose, outcome)
                    && final(self).state() == State::<R, O>::Idle,
                State::Working { job, purpose } => match finished {
                    None => step == Poll::<R, O>::Pending && final(self).state() == old(self).state(),
                    Some(outcome) => step == Poll::<R, O>::Publish(purpose, outcome) && final(self).state() == State::<R, O>::Idle,
                },
                State::Retiring { job, next } => match finished {
                    None => step == Poll::<R, O>::Pending && final(self).state() == old(self).state(),
                    Some(_) => match next {
                        None => step == Poll::<R, O>::Pending && final(self).state() == State::<
                            R,
                            O,
                        >::Idle,
                        Some((request, purpose)) => step == Poll::<R, O>::Spawn(request, purpose)
                            && final(self).state() == State::<R, O>::Starting { purpose },
                    },
                },
                State::Starting { .. } => true,
            },
    {
        let mut state = State::Idle;
        std::mem::swap(&mut state, &mut self.state);
        match state {
            State::Idle => Poll::Pending,
            State::Ready { purpose, outcome } => Poll::Publish(purpose, outcome),
            State::Working { job, purpose } => match finished {
                None => {
                    self.state = State::Working { job, purpose };
                    Poll::Pending
                },
                Some(outcome) => Poll::Publish(purpose, outcome),
            },
            State::Retiring { job, next } => match finished {
                None => {
                    self.state = State::Retiring { job, next };
                    Poll::Pending
                },
                Some(_) => match next {
                    None => Poll::Pending,
                    Some((request, purpose)) => {
                        self.state = State::Starting { purpose };
                        Poll::Spawn(request, purpose)
                    },
                },
            },
            State::Starting { purpose } => {
                self.state = State::Starting { purpose };
                Poll::Pending
            },
        }
    }
}

/// A document-portal transfer key as the portal takes it: one trailing NUL, as toolkits
/// serialize it, is dropped; an empty key, or one with a NUL inside, is refused rather
/// than truncated.
pub open spec fn transfer_key_spec(key: Seq<char>) -> Option<Seq<char>> {
    let stripped = if key.len() > 0 && key.last() == '\0' { key.drop_last() } else { key };
    if stripped.len() == 0 || stripped.contains('\0') {
        None
    } else {
        Some(stripped)
    }
}

pub fn transfer_key(key: &str) -> (stripped: Option<Vec<char>>)
    ensures
        match transfer_key_spec(key@) {
            Some(k) => stripped matches Some(v) && v@ == k,
            None => stripped is None,
        },
{
    let mut n = key.unicode_len();
    if n > 0 && key.get_char(n - 1) == '\0' {
        n = n - 1;
    }
    let ghost stripped = if key@.len() > 0 && key@.last() == '\0' { key@.drop_last() } else { key@ };
    assert(stripped =~= key@.subrange(0, n as int));
    if n == 0 {
        return None;
    }
    let mut chars: Vec<char> = Vec::new();
    let mut i: usize = 0;
    while i < n
        invariant
            i <= n <= key@.len(),
            stripped == key@.subrange(0, n as int),
            stripped == (if key@.len() > 0 && key@.last() == '\0' { key@.drop_last() } else { key@ }),
            chars@ == stripped.subrange(0, i as int),
            forall|k: int| 0 <= k < i ==> stripped[k] != '\0',
        decreases n - i,
    {
        let c = key.get_char(i);
        if c == '\0' {
            assert(stripped[i as int] == '\0');
            assert(stripped.contains('\0'));
            return None;
        }
        chars.push(c);
        assert(chars@ =~= stripped.subrange(0, i as int + 1));
        i = i + 1;
    }
    assert(chars@ =~= stripped);
    assert(!stripped.contains('\0')) by {
        if stripped.contains('\0') {
            let j = choose|j: int| 0 <= j < stripped.len() && stripped[j] == '\0';
            assert(stripped[j] != '\0');
        }
    }
    Some(chars)
}

} // verus!
