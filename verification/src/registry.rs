//! The handler registry: an immutable-after-startup mapping from method
//! names to request or notification handlers.
//!
//! Only the two reference handlers are in scope: `initialize` answers with
//! an empty capabilities object, `initialized` emits a `window/logMessage`
//! notification. The embedding application registers them (or a subset)
//! before the read loop starts; the first registration of a name wins.

use vstd::prelude::*;

use crate::codec::{OutShape, Outgoing};

verus! {

/// A request handler produces exactly one reply envelope.
#[derive(Clone, Copy, PartialEq, Eq, Structural, Debug)]
pub enum RequestHandler {
    /// Replies `{"capabilities":{}}`.
    Initialize,
}

/// A notification handler produces no reply, only outbound notifications.
#[derive(Clone, Copy, PartialEq, Eq, Structural, Debug)]
pub enum NotificationHandler {
    /// Emits a `window/logMessage` notification.
    Initialized,
}

pub open spec fn initialize_name() -> Seq<u8> {
    seq![105u8, 110, 105, 116, 105, 97, 108, 105, 122, 101]
}

pub open spec fn initialized_name() -> Seq<u8> {
    seq![105u8, 110, 105, 116, 105, 97, 108, 105, 122, 101, 100]
}

pub open spec fn initialized_log_text() -> Seq<u8> {
    seq![105u8, 110, 105, 116, 105, 97, 108, 105, 122, 101, 100]
}

/// First entry whose name matches, if any.
pub open spec fn lookup<H>(entries: Seq<(Vec<u8>, H)>, name: Seq<u8>) -> Option<H>
    decreases entries.len(),
{
    if entries.len() == 0 {
        None
    } else if entries[0].0@ == name {
        Some(entries[0].1)
    } else {
        lookup(entries.skip(1), name)
    }
}

/// What a request handler replies with, given the request's id and the raw
/// text of its params. The reference `initialize` handler accepts any
/// params and answers with the fixed empty-capabilities result.
pub open spec fn request_reply(h: RequestHandler, id: u64, params: Option<Seq<u8>>) -> OutShape {
    match h {
        RequestHandler::Initialize => OutShape::InitializeResult { id },
    }
}

/// What a notification handler emits.
pub open spec fn notification_output(h: NotificationHandler) -> Seq<OutShape> {
    match h {
        NotificationHandler::Initialized => seq![
            OutShape::LogMessage { message: initialized_log_text() },
        ],
    }
}

pub struct HandlerRegistry {
    pub request_handlers: Vec<(Vec<u8>, RequestHandler)>,
    pub notification_handlers: Vec<(Vec<u8>, NotificationHandler)>,
}

fn bytes_eq(a: &Vec<u8>, b: &[u8]) -> (r: bool)
    ensures
        r == (a@ == b@),
{
    if a.len() != b.len() {
        proof {
            assert(a@ != b@);
        }
        return false;
    }
    let mut k: usize = 0;
    while k < a.len()
        invariant
            0 <= k <= a@.len(),
            a@.len() == b@.len(),
            forall|q: int| 0 <= q < k ==> #[trigger] a@[q] == b@[q],
        decreases a@.len() - k,
    {
        if a[k] != b[k] {
            proof {
                assert(a@ != b@);
            }
            return false;
        }
        k = k + 1;
    }
    proof {
        assert(a@ =~= b@);
    }
    true
}

fn lookup_request(entries: &Vec<(Vec<u8>, RequestHandler)>, name: &[u8]) -> (r: Option<
    RequestHandler,
>)
    ensures
        r == lookup(entries@, name@),
{
    let mut k: usize = 0;
    proof {
        assert(entries@.skip(0) =~= entries@);
    }
    while k < entries.len()
        invariant
            0 <= k <= entries@.len(),
            lookup(entries@, name@) == lookup(entries@.skip(k as int), name@),
        decreases entries@.len() - k,
    {
        proof {
            assert(entries@.skip(k as int)[0] == entries@[k as int]);
            assert(entries@.skip(k as int).skip(1) =~= entries@.skip(k + 1));
        }
        if bytes_eq(&entries[k].0, name) {
            return Some(entries[k].1);
        }
        k = k + 1;
    }
    proof {
        assert(entries@.skip(k as int) =~= Seq::<(Vec<u8>, RequestHandler)>::empty());
    }
    None
}

fn lookup_notification(entries: &Vec<(Vec<u8>, NotificationHandler)>, name: &[u8]) -> (r: Option<
    NotificationHandler,
>)
    ensures
        r == lookup(entries@, name@),
{
    let mut k: usize = 0;
    proof {
        assert(entries@.skip(0) =~= entries@);
    }
    while k < entries.len()
        invariant
            0 <= k <= entries@.len(),
            lookup(entries@, name@) == lookup(entries@.skip(k as int), name@),
        decreases entries@.len() - k,
    {
        proof {
            assert(entries@.skip(k as int)[0] == entries@[k as int]);
            assert(entries@.skip(k as int).skip(1) =~= entries@.skip(k + 1));
        }
        if bytes_eq(&entries[k].0, name) {
            return Some(entries[k].1);
        }
        k = k + 1;
    }
    proof {
        assert(entries@.skip(k as int) =~= Seq::<(Vec<u8>, NotificationHandler)>::empty());
    }
    None
}

impl HandlerRegistry {
    /// An empty registry: every method is unknown.
    pub fn new() -> (r: HandlerRegistry)
        ensures
            r.request_handlers@ == Seq::<(Vec<u8>, RequestHandler)>::empty(),
            r.notification_handlers@ == Seq::<(Vec<u8>, NotificationHandler)>::empty(),
    {
        let r = HandlerRegistry { request_handlers: Vec::new(), notification_handlers: Vec::new() };
        proof {
            assert(r.request_handlers@ =~= Seq::<(Vec<u8>, RequestHandler)>::empty());
            assert(r.notification_handlers@ =~= Seq::<(Vec<u8>, NotificationHandler)>::empty());
        }
        r
    }

    /// Binds a request method name; an earlier binding of the same name wins.
    pub fn register_request(&mut self, name: Vec<u8>, h: RequestHandler)
        ensures
            final(self).request_handlers@ == old(self).request_handlers@.push((name, h)),
            final(self).notification_handlers@ == old(self).notification_handlers@,
    {
        self.request_handlers.push((name, h));
    }

    /// Binds a notification method name; an earlier binding wins.
    pub fn register_notification(&mut self, name: Vec<u8>, h: NotificationHandler)
        ensures
            final(self).request_handlers@ == old(self).request_handlers@,
            final(self).notification_handlers@ == old(self).notification_handlers@.push((name, h)),
    {
        self.notification_handlers.push((name, h));
    }

    /// The reference registry: `initialize` and `initialized` only.
    pub fn with_reference_handlers() -> (r: HandlerRegistry)
        ensures
            r.request_handlers@.len() == 1,
            r.request_handlers@[0].0@ == initialize_name(),
            r.request_handlers@[0].1 == RequestHandler::Initialize,
            r.notification_handlers@.len() == 1,
            r.notification_handlers@[0].0@ == initialized_name(),
            r.notification_handlers@[0].1 == NotificationHandler::Initialized,
    {
        let mut r = HandlerRegistry::new();
        let ini: Vec<u8> = vec![105u8, 110, 105, 116, 105, 97, 108, 105, 122, 101];
        proof {
            assert(ini@ =~= initialize_name());
        }
        r.register_request(ini, RequestHandler::Initialize);
        let inid: Vec<u8> = vec![105u8, 110, 105, 116, 105, 97, 108, 105, 122, 101, 100];
        proof {
            assert(inid@ =~= initialized_name());
        }
        r.register_notification(inid, NotificationHandler::Initialized);
        r
    }

    /// The request handler bound to `name`, if any.
    pub fn request_for(&self, name: &[u8]) -> (r: Option<RequestHandler>)
        ensures
            r == lookup(self.request_handlers@, name@),
    {
        lookup_request(&self.request_handlers, name)
    }

    /// The notification handler bound to `name`, if any.
    pub fn notification_for(&self, name: &[u8]) -> (r: Option<NotificationHandler>)
        ensures
            r == lookup(self.notification_handlers@, name@),
    {
        lookup_notification(&self.notification_handlers, name)
    }

    /// Runs a request handler on the request's `(id, params)`.
    pub fn run_request(&self, h: RequestHandler, id: u64, params: &Option<Vec<u8>>) -> (r:
        Outgoing)
        ensures
            r@ == request_reply(h, id, crate::codec::opt_bytes(*params)),
    {
        match h {
            RequestHandler::Initialize => Outgoing::InitializeResult { id },
        }
    }

    /// Runs a notification handler; the result is what it emits.
    pub fn run_notification(&self, h: NotificationHandler) -> (r: Vec<Outgoing>)
        ensures
            crate::dispatch::outs_view(r@) == notification_output(h),
    {
        match h {
            NotificationHandler::Initialized => {
                let msg: Vec<u8> = vec![105u8, 110, 105, 116, 105, 97, 108, 105, 122, 101, 100];
                proof {
                    assert(msg@ =~= initialized_log_text());
                }
                let mut out: Vec<Outgoing> = Vec::new();
                out.push(Outgoing::LogMessage { message: msg });
                proof {
                    assert(crate::dispatch::outs_view(out@) =~= notification_output(h));
                }
                out
            },
        }
    }
}

} // verus!
