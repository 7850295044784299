//! Session state of the transport: the monotonic request-id counter, the
//! initialization flag, the demultiplexing decision of the read loop, and
//! the diagnostics store that notifications overwrite as a side effect of
//! reading.

use vstd::prelude::*;
use vstd::string::StringSliceAdditionalSpecFns;

use crate::protocol::Diagnostic;

verus! {

/// Failure of a session-level precondition: an operation that needs a
/// completed handshake was invoked before the handshake finished. Fatal
/// to that call, not to the session.
#[derive(Debug, Clone, Copy, PartialEq, Eq, Structural)]
pub enum SessionError {
    Uninitialized,
}

/// The id field of an incoming message: absent (a notification), present
/// but not an unsigned integer, or an integer id.
#[derive(Debug, Clone, Copy, PartialEq, Eq, Structural)]
pub enum IdField {
    Absent,
    NonNumeric,
    Numeric(u64),
}

/// The routing-relevant fields of one incoming message: its id, if any,
/// and its method name, if any.
#[derive(Debug)]
pub struct IncomingHeader {
    pub id: IdField,
    pub method: Option<String>,
}

/// What the read loop does with one incoming message.
#[derive(Debug, Clone, Copy, PartialEq, Eq, Structural)]
pub enum ReadAction {
    /// The message is the reply to the request being awaited: return it.
    CompleteRequest,
    /// The message is a diagnostics notification: overwrite the store
    /// entry for its file.
    StoreDiagnostics,
    /// A reply to some other id, or an unknown notification: read on.
    Discard,
}

/// The method name of the notification that pushes diagnostics.
pub open spec fn publish_diagnostics_method() -> Seq<char> {
    "textDocument/publishDiagnostics"@
}

/// Decides what to do with one incoming message while awaiting the reply
/// to `expected_id`: a message whose integer id equals `expected_id`
/// completes the request; a message with no id whose method is the
/// diagnostics push updates the store; everything else — a reply to a
/// different or non-numeric id, another notification — is discarded and
/// the loop reads on.
pub fn route_message(expected_id: u64, header: &IncomingHeader) -> (r: ReadAction)
    ensures
        (r is CompleteRequest) <==> header.id == IdField::Numeric(expected_id),
        (r is StoreDiagnostics) <==> (header.id is Absent && match header.method {
            Some(m) => m@ == publish_diagnostics_method(),
            None => false,
        }),
{
    match header.id {
        IdField::Numeric(id) => {
            if id == expected_id {
                ReadAction::CompleteRequest
            } else {
                ReadAction::Discard
            }
        },
        IdField::NonNumeric => ReadAction::Discard,
        IdField::Absent => {
            match &header.method {
                Some(m) => {
                    let lit = "textDocument/publishDiagnostics";
                    if str_eq(m.as_str(), lit) {
                        ReadAction::StoreDiagnostics
                    } else {
                        ReadAction::Discard
                    }
                },
                None => ReadAction::Discard,
            }
        },
    }
}

/// Character-exact string comparison, through the UTF-8 bytes.
pub fn str_eq(a: &str, b: &str) -> (r: bool)
    ensures
        r == (a@ == b@),
{
    let ab = a.as_bytes();
    let bb = b.as_bytes();
    let n = ab.len();
    if n != bb.len() {
        proof {
            broadcast use vstd::utf8::encode_utf8_valid_utf8;

            assert(a.spec_bytes() != b.spec_bytes());
            assert(a@ != b@);
        }
        return false;
    }
    let mut k: usize = 0;
    while k < n
        invariant
            k <= n,
            ab@ == a.spec_bytes(),
            bb@ == b.spec_bytes(),
            n == ab@.len(),
            n == bb@.len(),
            forall|m: int| 0 <= m < k ==> ab@[m] == bb@[m],
        decreases n - k,
    {
        if ab[k] != bb[k] {
            proof {
                assert(a.spec_bytes() != b.spec_bytes());
                assert(a@ != b@);
            }
            return false;
        }
        k = k + 1;
    }
    proof {
        assert(a.spec_bytes() =~= b.spec_bytes());
        vstd::utf8::encode_utf8_decode_utf8(a@);
        vstd::utf8::encode_utf8_decode_utf8(b@);
        assert(a@ == b@);
    }
    true
}

/// The mapping a list of (file, diagnostics) entries stands for: later
/// entries overwrite earlier ones with the same file identifier.
pub open spec fn store_map(
    entries: Seq<(String, Vec<Diagnostic>)>,
) -> Map<Seq<char>, Seq<Diagnostic>>
    decreases entries.len(),
{
    if entries.len() == 0 {
        Map::empty()
    } else {
        store_map(entries.drop_last()).insert(entries.last().0@, entries.last().1@)
    }
}

/// Mapping from file identifier (canonical URI string) to the ordered
/// diagnostics last published for it. Each publish notification replaces
/// the previous entry for its file wholesale; nothing merges.
pub struct DiagnosticsStore {
    entries: Vec<(String, Vec<Diagnostic>)>,
}

impl View for DiagnosticsStore {
    type V = Map<Seq<char>, Seq<Diagnostic>>;

    closed spec fn view(&self) -> Map<Seq<char>, Seq<Diagnostic>> {
        store_map(self.entries@)
    }
}

impl DiagnosticsStore {
    /// One entry per file identifier.
    pub closed spec fn wf(&self) -> bool {
        unique_keys(self.entries@)
    }

    pub fn new() -> (s: Self)
        ensures
            s.wf(),
            s@ == Map::<Seq<char>, Seq<Diagnostic>>::empty(),
    {
        DiagnosticsStore { entries: Vec::new() }
    }

    /// Records the diagnostics last published for `uri`, replacing any
    /// earlier entry for the same file wholesale.
    pub fn publish(&mut self, uri: String, diags: Vec<Diagnostic>)
        requires
            old(self).wf(),
        ensures
            final(self).wf(),
            final(self)@ == old(self)@.insert(uri@, diags@),
    {
        let n = self.entries.len();
        let ghost ev = self.entries@;
        let mut k: usize = 0;
        while k < n
            invariant
                ev == self.entries@,
                ev == old(self).entries@,
                unique_keys(ev),
                n == ev.len(),
                k <= n,
                forall|m: int| 0 <= m < k ==> (#[trigger] ev[m]).0@ != uri@,
            decreases n - k,
        {
            if str_eq(self.entries[k].0.as_str(), uri.as_str()) {
                proof {
                    lemma_store_map_update(ev, k as int, (uri, diags));
                }
                self.entries.set(k, (uri, diags));
                proof {
                    assert(unique_keys(self.entries@)) by {
                        assert(forall|m: int|
                            0 <= m < ev.len() && m != k ==> (#[trigger] self.entries@[m]) == ev[m]);
                    }
                }
                return ;
            }
            k = k + 1;
        }
        proof {
            assert(forall|m: int| 0 <= m < ev.len() ==> (#[trigger] ev[m]).0@ != uri@);
        }
        self.entries.push((uri, diags));
        proof {
            assert(self.entries@.drop_last() =~= ev);
            assert(unique_keys(self.entries@)) by {
                assert(forall|m: int|
                    0 <= m < ev.len() ==> (#[trigger] self.entries@[m]) == ev[m]);
            }
        }
    }

    /// The diagnostics last published for `uri`, or nothing when no
    /// publish for that file has been seen yet — a valid and common state,
    /// not an error.
    pub fn get(&self, uri: &str) -> (r: Option<&Vec<Diagnostic>>)
        requires
            self.wf(),
        ensures
            match r {
                Some(d) => self@.contains_key(uri@) && d@ == self@[uri@],
                None => !self@.contains_key(uri@),
            },
    {
        let n = self.entries.len();
        let ghost ev = self.entries@;
        let mut k: usize = 0;
        while k < n
            invariant
                ev == self.entries@,
                self.wf(),
                n == ev.len(),
                k <= n,
                forall|m: int| 0 <= m < k ==> (#[trigger] ev[m]).0@ != uri@,
            decreases n - k,
        {
            if str_eq(self.entries[k].0.as_str(), uri) {
                proof {
                    lemma_store_map_lookup(ev, k as int);
                }
                return Some(&self.entries[k].1);
            }
            k = k + 1;
        }
        proof {
            lemma_store_map_absent(ev, uri@);
        }
        None
    }
}

/// No two entries carry the same file identifier.
pub open spec fn unique_keys(entries: Seq<(String, Vec<Diagnostic>)>) -> bool {
    forall|i: int, j: int|
        0 <= i < j < entries.len() ==> (#[trigger] entries[i]).0@ != (#[trigger] entries[j]).0@
}

/// A key held by no entry is not in the mapping.
proof fn lemma_store_map_absent(entries: Seq<(String, Vec<Diagnostic>)>, key: Seq<char>)
    requires
        forall|m: int| 0 <= m < entries.len() ==> (#[trigger] entries[m]).0@ != key,
    ensures
        !store_map(entries).contains_key(key),
    decreases entries.len(),
{
    if entries.len() > 0 {
        assert(forall|m: int|
            0 <= m < entries.len() - 1 ==> #[trigger] entries.drop_last()[m] == entries[m]);
        lemma_store_map_absent(entries.drop_last(), key);
    }
}

/// With unique keys, the mapping holds each entry's diagnostics under its
/// key.
proof fn lemma_store_map_lookup(entries: Seq<(String, Vec<Diagnostic>)>, k: int)
    requires
        unique_keys(entries),
        0 <= k < entries.len(),
    ensures
        store_map(entries).contains_key(entries[k].0@),
        store_map(entries)[entries[k].0@] == entries[k].1@,
    decreases entries.len(),
{
    if k == entries.len() - 1 {
    } else {
        assert(forall|m: int|
            0 <= m < entries.len() - 1 ==> #[trigger] entries.drop_last()[m] == entries[m]);
        lemma_store_map_lookup(entries.drop_last(), k);
        assert(entries.last().0@ != entries[k].0@);
    }
}

/// With unique keys, replacing the entry that holds `e.0`'s key in place
/// is insertion into the mapping.
proof fn lemma_store_map_update(
    entries: Seq<(String, Vec<Diagnostic>)>,
    k: int,
    e: (String, Vec<Diagnostic>),
)
    requires
        unique_keys(entries),
        0 <= k < entries.len(),
        entries[k].0@ == e.0@,
    ensures
        store_map(entries.update(k, e)) == store_map(entries).insert(e.0@, e.1@),
    decreases entries.len(),
{
    let upd = entries.update(k, e);
    if k == entries.len() - 1 {
        assert(upd.drop_last() =~= entries.drop_last());
        assert(upd.last() == e);
        assert(store_map(upd) == store_map(entries.drop_last()).insert(e.0@, e.1@));
        assert(store_map(entries).insert(e.0@, e.1@) =~= store_map(entries.drop_last()).insert(
            e.0@,
            e.1@,
        ));
    } else {
        assert(forall|m: int|
            0 <= m < entries.len() - 1 ==> #[trigger] entries.drop_last()[m] == entries[m]);
        assert(upd.drop_last() =~= entries.drop_last().update(k, e));
        assert(upd.last() == entries.last());
        lemma_store_map_update(entries.drop_last(), k, e);
        assert(entries.last().0@ != e.0@);
        assert(store_map(upd) == store_map(entries.drop_last()).insert(e.0@, e.1@).insert(
            entries.last().0@,
            entries.last().1@,
        ));
        assert(store_map(entries.drop_last()).insert(e.0@, e.1@).insert(
            entries.last().0@,
            entries.last().1@,
        ) =~= store_map(entries.drop_last()).insert(entries.last().0@, entries.last().1@).insert(
            e.0@,
            e.1@,
        ));
    }
}

/// Publishing diagnostics for the same file twice leaves only the second
/// payload retrievable — the store replaces, never merges — and a file
/// never published stays absent.
pub proof fn lemma_publish_replaces(
    m: Map<Seq<char>, Seq<Diagnostic>>,
    uri: Seq<char>,
    first: Seq<Diagnostic>,
    second: Seq<Diagnostic>,
    other: Seq<char>,
)
    requires
        !m.contains_key(other),
        other != uri,
    ensures
        m.insert(uri, first).insert(uri, second).contains_key(uri),
        m.insert(uri, first).insert(uri, second)[uri] == second,
        !m.insert(uri, first).insert(uri, second).contains_key(other),
{
}

/// Capability flags sent inside the initialize request's options: the
/// full-vs-partial analysis mode toggles both together.
#[derive(Debug, Clone, Copy, PartialEq, Eq, Structural)]
pub struct InitializeOptions {
    pub load_out_dirs_from_check: bool,
    pub proc_macro_enable: bool,
}

/// The capability flags for an analysis mode: full analysis turns both
/// on, partial analysis turns both off.
pub fn analysis_options(full_analysis: bool) -> (opts: InitializeOptions)
    ensures
        opts.load_out_dirs_from_check == full_analysis,
        opts.proc_macro_enable == full_analysis,
{
    InitializeOptions { load_out_dirs_from_check: full_analysis, proc_macro_enable: full_analysis }
}

/// One analyzer session: the state the transport keeps between calls. The
/// subprocess handle and its streams live with the caller; the session
/// holds the monotonic request-id counter, the initialization flag, and
/// the diagnostics store.
pub struct Session {
    pub request_id: u64,
    pub initialized: bool,
    pub diagnostics: DiagnosticsStore,
}

impl Session {
    /// A fresh session: no request sent yet, handshake not done, no
    /// diagnostics seen.
    pub fn new() -> (s: Session)
        ensures
            s.request_id == 0,
            !s.initialized,
            s.diagnostics.wf(),
            s.diagnostics@ == Map::<Seq<char>, Seq<Diagnostic>>::empty(),
    {
        Session { request_id: 0, initialized: false, diagnostics: DiagnosticsStore::new() }
    }

    /// Allocates the next request id: strictly increasing, starting at 1,
    /// never reused within the session.
    pub fn next_request_id(&mut self) -> (id: u64)
        requires
            old(self).request_id < u64::MAX,
        ensures
            final(self).request_id == old(self).request_id + 1,
            id == final(self).request_id,
            final(self).initialized == old(self).initialized,
            final(self).diagnostics == old(self).diagnostics,
    {
        self.request_id = self.request_id + 1;
        self.request_id
    }

    /// Records that the initialize handshake — the initialize request and
    /// the initialized notification — has completed.
    pub fn mark_initialized(&mut self)
        ensures
            final(self).initialized,
            final(self).request_id == old(self).request_id,
            final(self).diagnostics == old(self).diagnostics,
    {
        self.initialized = true;
    }

    /// Fails fast with `Uninitialized` iff the handshake has not
    /// completed; fatal to the call, not to the session.
    pub fn ensure_initialized(&self) -> (r: Result<(), SessionError>)
        ensures
            (r is Ok) == self.initialized,
            (r is Err) ==> r == Err::<(), SessionError>(SessionError::Uninitialized),
    {
        if self.initialized {
            Ok(())
        } else {
            Err(SessionError::Uninitialized)
        }
    }
}

} // verus!
