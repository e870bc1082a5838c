use vstd::prelude::*;

use crate::broker::{texts, Broker};

verus! {

/// The window of the last `n` lines of `lines` (all of them when there are fewer).
pub open spec fn tail_window<A>(lines: Seq<A>, n: nat) -> Seq<A> {
    if lines.len() <= n {
        lines
    } else {
        lines.subrange(lines.len() - n, lines.len() as int)
    }
}

/// The line count used by `tail` when the caller gives none.
pub const DEFAULT_TAIL_LINES: usize = 10;

/// Returns the last `num_lines` lines (default ten) of a historical log, in order.
pub fn tail(lines: &Vec<String>, num_lines: Option<usize>) -> (r: Vec<String>)
    ensures
        r@ == tail_window(
            lines@,
            match num_lines {
                Some(n) => n as nat,
                None => DEFAULT_TAIL_LINES as nat,
            },
        ),
{
    let n: usize = match num_lines {
        Some(n) => n,
        None => DEFAULT_TAIL_LINES,
    };
    let start: usize = if lines.len() <= n { 0 } else { lines.len() - n };
    let mut r: Vec<String> = Vec::new();
    let mut i: usize = start;
    while i < lines.len()
        invariant
            start <= i <= lines.len(),
            r@ == lines@.subrange(start as int, i as int),
        decreases lines.len() - i,
    {
        r.push(lines[i].clone());
        i = i + 1;
    }
    proof {
        if lines@.len() <= n {
            assert(r@ =~= lines@);
        }
    }
    r
}


/// Why a log query failed.
#[derive(Debug, Clone, Copy, PartialEq, Eq, Structural)]
pub enum LogError {
    /// No log exists yet for the service.
    NotFound,
}

fn copy_lines(lines: &Vec<String>) -> (r: Vec<String>)
    ensures
        texts(r@) == texts(lines@),
{
    let mut r: Vec<String> = Vec::new();
    let mut i: usize = 0;
    while i < lines.len()
        invariant
            i <= lines.len(),
            r@ == lines@.take(i as int),
        decreases lines.len() - i,
    {
        r.push(lines[i].clone());
        i = i + 1;
        assert(r@ =~= lines@.take(i as int));
    }
    assert(lines@.take(i as int) =~= lines@);
    r
}

/// The per-service logs: the history of each service that has a sink, and the broker
/// through which new lines reach live subscribers.
pub struct LogEngine {
    services: Vec<u64>,
    histories: Vec<Vec<String>>,
    broker: Broker<String>,
}

impl LogEngine {
    /// The services that have a log, in the order their sinks were opened.
    pub closed spec fn services(&self) -> Seq<u64> {
        self.services@
    }

    /// The live-line broker.
    pub closed spec fn broker(&self) -> Broker<String> {
        self.broker
    }

    /// A log exists for `service`.
    pub open spec fn has_log(&self, service: u64) -> bool {
        self.services().contains(service)
    }

    /// The lines logged for `service`, oldest first.
    pub closed spec fn log(&self, service: u64) -> Seq<Seq<char>> {
        let i = choose|i: int| 0 <= i < self.services@.len() && self.services@[i] == service;
        texts(self.histories@[i]@)
    }

    /// One history per service, no service twice, and a sound broker.
    pub closed spec fn wf(&self) -> bool {
        &&& self.services@.len() == self.histories@.len()
        &&& self.services@.no_duplicates()
        &&& self.broker.wf()
    }

    /// No logs and no subscribers.
    pub fn new() -> (r: LogEngine)
        ensures
            r.wf(),
            forall|s: u64| !r.has_log(s),
            r.broker().subscriber_count() == 0,
    {
        LogEngine { services: Vec::new(), histories: Vec::new(), broker: Broker::new() }
    }

    fn find(&self, service: u64) -> (r: Option<usize>)
        requires
            self.wf(),
        ensures
            match r {
                Some(i) => i < self.services@.len() && self.services@[i as int] == service
                    && self.log(service) == texts(self.histories@[i as int]@),
                None => !self.has_log(service),
            },
    {
        let mut i: usize = 0;
        while i < self.services.len()
            invariant
                self.wf(),
                i <= self.services@.len(),
                forall|j: int| 0 <= j < i ==> self.services@[j] != service,
            decreases self.services.len() - i,
        {
            if self.services[i] == service {
                proof {
                    let c = choose|c: int| 0 <= c < self.services@.len() && self.services@[c] == service;
                    assert(c == i);
                }
                return Some(i);
            }
            i = i + 1;
        }
        None
    }

    /// Opens the sink of `service`: created empty if absent, kept as it is if present.
    pub fn open_sink(&mut self, service: u64)
        requires
            old(self).wf(),
        ensures
            final(self).wf(),
            final(self).has_log(service),
            old(self).has_log(service) ==> final(self).log(service) == old(self).log(service),
            !old(self).has_log(service) ==> final(self).log(service) == Seq::<Seq<char>>::empty(),
            forall|s: u64| s != service ==> (#[trigger] final(self).has_log(s) == old(self).has_log(s)),
            forall|s: u64| s != service && old(self).has_log(s) ==> #[trigger] final(self).log(s) == old(self).log(s),
            final(self).broker() == old(self).broker(),
    {
        match self.find(service) {
            Some(_) => {},
            None => {
                let ghost old_self = *self;
                self.services.push(service);
                self.histories.push(Vec::new());
                proof {
                    let n = old_self.services@.len() as int;
                    assert(self.services@[n] == service);
                    assert(self.log(service) =~= Seq::<Seq<char>>::empty());
                    assert forall|s: u64| s != service implies (#[trigger] self.has_log(s) == old_self.has_log(s)) by {
                        if self.has_log(s) {
                            let j = choose|j: int| 0 <= j < self.services@.len() && self.services@[j] == s;
                            assert(old_self.services@[j] == s);
                        }
                        if old_self.has_log(s) {
                            let j = choose|j: int| 0 <= j < old_self.services@.len() && old_self.services@[j] == s;
                            assert(self.services@[j] == s);
                        }
                    }
                    assert forall|s: u64| s != service && old_self.has_log(s) implies #[trigger] self.log(s) == old_self.log(s) by {
                        let j = choose|j: int| 0 <= j < old_self.services@.len() && old_self.services@[j] == s;
                        assert(self.services@[j] == s);
                        let c = choose|c: int| 0 <= c < self.services@.len() && self.services@[c] == s;
                        assert(c == j);
                    }
                }
            },
        }
    }

    /// Appends a line to the log of `service`, opening its sink if needed, and publishes
    /// it to the subscribers of that service.
    pub fn append(&mut self, service: u64, line: String)
        requires
            old(self).wf(),
        ensures
            final(self).wf(),
            final(self).has_log(service),
            final(self).log(service) == (if old(self).has_log(service) {
                old(self).log(service)
            } else {
                Seq::<Seq<char>>::empty()
            }).push(line@),
            forall|s: u64| s != service ==> (#[trigger] final(self).has_log(s) == old(self).has_log(s)),
            forall|s: u64| s != service && old(self).has_log(s) ==> #[trigger] final(self).log(s) == old(self).log(s),
            final(self).broker().subscriber_count() == old(self).broker().subscriber_count(),
            forall|u: int| 0 <= u < old(self).broker().subscriber_count() ==> #[trigger] final(self).broker().topic(u) == old(self).broker().topic(u),
            forall|u: int| 0 <= u < old(self).broker().subscriber_count() ==> #[trigger] final(self).broker().pending(u) == if old(self).broker().topic(u) == service {
                old(self).broker().pending(u).push(line)
            } else {
                old(self).broker().pending(u)
            },
    {
        let ghost start = *self;
        self.open_sink(service);
        let ghost mid = *self;
        let i = self.find(service).unwrap();
        let copy = line.clone();
        let mut h: Vec<String> = Vec::new();
        self.histories.set_and_swap(i, &mut h);
        h.push(copy);
        self.histories.set_and_swap(i, &mut h);
        proof {
            assert(self.services@ == mid.services@);
            let c = choose|c: int| 0 <= c < self.services@.len() && self.services@[c] == service;
            assert(c == i);
            assert(texts(self.histories@[i as int]@) =~= mid.log(service).push(line@));
            assert forall|s: u64| s != service && mid.has_log(s) implies #[trigger] self.log(s) == mid.log(s) by {
                let j = choose|j: int| 0 <= j < self.services@.len() && self.services@[j] == s;
                assert(j != i);
                assert(self.histories@[j] == mid.histories@[j]);
            }
        }
        self.broker.publish(service, line);
        proof {
            assert forall|s: u64| s != service implies (#[trigger] self.has_log(s) == start.has_log(s)) by {
                assert(mid.has_log(s) == start.has_log(s));
            }
            assert forall|s: u64| s != service && start.has_log(s) implies #[trigger] self.log(s) == start.log(s) by {
                assert(mid.has_log(s));
                assert(mid.log(s) == start.log(s));
            }
        }
    }

    /// The whole log of `service`, oldest line first.
    pub fn read_all(&self, service: u64) -> (r: Result<Vec<String>, LogError>)
        requires
            self.wf(),
        ensures
            r.is_err() <==> !self.has_log(service),
            r.is_err() ==> r == Err::<Vec<String>, LogError>(LogError::NotFound),
            r matches Ok(v) ==> texts(v@) == self.log(service),
    {
        match self.find(service) {
            Some(i) => Ok(copy_lines(&self.histories[i])),
            None => Err(LogError::NotFound),
        }
    }

    /// The last `num_lines` lines (default ten) of the log of `service`.
    pub fn tail(&self, service: u64, num_lines: Option<usize>) -> (r: Result<Vec<String>, LogError>)
        requires
            self.wf(),
        ensures
            r.is_err() <==> !self.has_log(service),
            r.is_err() ==> r == Err::<Vec<String>, LogError>(LogError::NotFound),
            r matches Ok(v) ==> texts(v@) == tail_window(
                self.log(service),
                match num_lines {
                    Some(n) => n as nat,
                    None => DEFAULT_TAIL_LINES as nat,
                },
            ),
    {
        match self.find(service) {
            Some(i) => {
                let v = tail(&self.histories[i], num_lines);
                let ghost h = self.histories@[i as int]@;
                let ghost n: nat = match num_lines {
                    Some(n) => n as nat,
                    None => DEFAULT_TAIL_LINES as nat,
                };
                proof {
                    assert(v@ == tail_window(h, n));
                    if h.len() > n {
                        assert(texts(v@) =~= tail_window(texts(h), n));
                    } else {
                        assert(texts(v@) =~= tail_window(texts(h), n));
                    }
                }
                Ok(v)
            },
            None => Err(LogError::NotFound),
        }
    }

    /// Starts a live stream of the lines of `service`: returns a new subscription, which
    /// sees every line appended from now on, and the current tail to replay first.
    pub fn stream(&mut self, service: u64) -> (r: Result<(usize, Vec<String>), LogError>)
        requires
            old(self).wf(),
            old(self).broker().subscriber_count() < usize::MAX,
        ensures
            final(self).wf(),
            r.is_err() <==> !old(self).has_log(service),
            r.is_err() ==> r == Err::<(usize, Vec<String>), LogError>(LogError::NotFound) && *final(self) == *old(self),
            r matches Ok((sub, replay)) ==> {
                &&& texts(replay@) == tail_window(old(self).log(service), DEFAULT_TAIL_LINES as nat)
                &&& sub == old(self).broker().subscriber_count()
                &&& final(self).broker().subscriber_count() == old(self).broker().subscriber_count() + 1
                &&& final(self).broker().topic(sub as int) == service
                &&& final(self).broker().pending(sub as int) == Seq::<String>::empty()
                &&& forall|u: int| 0 <= u < old(self).broker().subscriber_count() ==> #[trigger] final(self).broker().pending(u) == old(self).broker().pending(u)
                    && final(self).broker().topic(u) == old(self).broker().topic(u)
                &&& forall|s: u64| #[trigger] final(self).has_log(s) == old(self).has_log(s)
                &&& forall|s: u64| old(self).has_log(s) ==> #[trigger] final(self).log(s) == old(self).log(s)
            },
    {
        match self.tail(service, None) {
            Ok(replay) => {
                let sub = self.broker.subscribe(service);
                Ok((sub, replay))
            },
            Err(e) => Err(e),
        }
    }

    /// Takes the lines that subscription `sub` has not read yet.
    pub fn poll(&mut self, sub: usize) -> (r: Vec<String>)
        requires
            old(self).wf(),
            sub < old(self).broker().subscriber_count(),
        ensures
            final(self).wf(),
            r@ == old(self).broker().pending(sub as int),
            final(self).broker().pending(sub as int) == Seq::<String>::empty(),
            final(self).broker().subscriber_count() == old(self).broker().subscriber_count(),
            forall|u: int| 0 <= u < old(self).broker().subscriber_count() ==> #[trigger] final(self).broker().topic(u) == old(self).broker().topic(u),
            forall|u: int| 0 <= u < old(self).broker().subscriber_count() && u != sub ==> #[trigger] final(self).broker().pending(u) == old(self).broker().pending(u),
            forall|s: u64| #[trigger] final(self).has_log(s) == old(self).has_log(s),
            forall|s: u64| old(self).has_log(s) ==> #[trigger] final(self).log(s) == old(self).log(s),
    {
        let ghost pending = self.broker().pending(sub as int);
        let r = self.broker.poll(sub);
        assert(r@ =~= pending);
        r
    }
}


/// Read queries on service logs.
#[derive(Debug, Clone, Copy, Default)]
pub struct LoggingQuery;

impl LoggingQuery {
    /// The last `num_lines` lines (default ten) of the log of service `id`.
    pub fn tail(&self, engine: &LogEngine, id: u64, num_lines: Option<usize>) -> (r: Result<Vec<String>, LogError>)
        requires
            engine.wf(),
        ensures
            r.is_err() <==> !engine.has_log(id),
            r.is_err() ==> r == Err::<Vec<String>, LogError>(LogError::NotFound),
            r matches Ok(v) ==> texts(v@) == tail_window(
                engine.log(id),
                match num_lines {
                    Some(n) => n as nat,
                    None => DEFAULT_TAIL_LINES as nat,
                },
            ),
    {
        engine.tail(id, num_lines)
    }

    /// The whole log of service `id`.
    pub fn logs(&self, engine: &LogEngine, id: u64) -> (r: Result<Vec<String>, LogError>)
        requires
            engine.wf(),
        ensures
            r.is_err() <==> !engine.has_log(id),
            r.is_err() ==> r == Err::<Vec<String>, LogError>(LogError::NotFound),
            r matches Ok(v) ==> texts(v@) == engine.log(id),
    {
        engine.read_all(id)
    }
}

/// Live subscriptions to service logs.
#[derive(Debug, Clone, Copy, Default)]
pub struct LoggingSubscription;

impl LoggingSubscription {
    /// Follows the log of service `id`: the last ten lines to replay, and a subscription
    /// that receives every line appended from now on.
    pub fn tail(&self, engine: &mut LogEngine, id: u64) -> (r: Result<(usize, Vec<String>), LogError>)
        requires
            old(engine).wf(),
            old(engine).broker().subscriber_count() < usize::MAX,
        ensures
            final(engine).wf(),
            r.is_err() <==> !old(engine).has_log(id),
            r.is_err() ==> *final(engine) == *old(engine),
            r matches Ok((sub, replay)) ==> {
                &&& texts(replay@) == tail_window(old(engine).log(id), DEFAULT_TAIL_LINES as nat)
                &&& sub == old(engine).broker().subscriber_count()
                &&& final(engine).broker().topic(sub as int) == id
                &&& final(engine).broker().pending(sub as int) == Seq::<String>::empty()
            },
    {
        engine.stream(id)
    }

    /// Follows the log of service `id` from its first line: the whole log to replay, and a
    /// subscription that receives every line appended from now on.
    pub fn logs(&self, engine: &mut LogEngine, id: u64) -> (r: Result<(usize, Vec<String>), LogError>)
        requires
            old(engine).wf(),
            old(engine).broker().subscriber_count() < usize::MAX,
        ensures
            final(engine).wf(),
            r.is_err() <==> !old(engine).has_log(id),
            r.is_err() ==> *final(engine) == *old(engine),
            r matches Ok((sub, replay)) ==> {
                &&& texts(replay@) == old(engine).log(id)
                &&& sub == old(engine).broker().subscriber_count()
                &&& final(engine).broker().topic(sub as int) == id
                &&& final(engine).broker().pending(sub as int) == Seq::<String>::empty()
            },
    {
        match engine.read_all(id) {
            Ok(replay) => match engine.stream(id) {
                Ok((sub, _)) => Ok((sub, replay)),
                Err(e) => Err(e),
            },
            Err(e) => Err(e),
        }
    }
}

} // verus!
