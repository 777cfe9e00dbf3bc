//! Connection — the live WebSocket link from a running client to the server.
//!
//! A connection lives from the moment it is registered until it is removed;
//! each registration produces a fresh `connection_id`. Domain-level identity
//! (which client, which user) is attached to a connection through its `data`
//! object and its `user_id`.
//!
//! The server keeps every connection in one [`ConnectionMap`]; the functions
//! of [`CnctdConnection`] read and update that map.
use vstd::prelude::*;

use crate::json::{JsonData, JsonValue};

verus! {

#[verifier::external_type_specification]
#[verifier::external_body]
#[verifier::reject_recursive_types(T)]
pub struct ExUnboundedSender<T>(tokio::sync::mpsc::UnboundedSender<T>);

/// A moment in UTC: whole seconds since the Unix epoch, and nanoseconds
/// past them.
#[derive(Debug, Clone, Copy, PartialEq, Eq, Structural)]
pub struct Timestamp {
    pub secs: i64,
    pub nanos: u32,
}

/// The current time (`chrono::Utc::now`), as seconds and nanoseconds. The
/// time read is the machine's, so nothing is stated of it.
#[verifier::external_body]
fn current_time() -> Timestamp {
    let now = chrono::offset::Utc::now();
    Timestamp { secs: now.timestamp(), nanos: now.timestamp_subsec_nanos() }
}

/// A lowercase hexadecimal digit.
pub open spec fn is_lower_hex(c: char) -> bool {
    ('0' <= c && c <= '9') || ('a' <= c && c <= 'f')
}

/// The hyphenated, lowercase text of a version-4 (random) UUID of the
/// RFC 4122 variant: 36 characters, hyphens at 8, 13, 18 and 23, hex digits
/// elsewhere, the version digit `4` at 14, and one of `8`, `9`, `a`, `b` at
/// 19.
pub open spec fn is_uuid_v4_text(s: Seq<char>) -> bool {
    &&& s.len() == 36
    &&& forall|i: int|
        0 <= i < 36 ==> if i == 8 || i == 13 || i == 18 || i == 23 {
            #[trigger] s[i] == '-'
        } else {
            is_lower_hex(s[i])
        }
    &&& s[14] == '4'
    &&& (s[19] == '8' || s[19] == '9' || s[19] == 'a' || s[19] == 'b')
}

/// A fresh connection id: a random version-4 UUID in its hyphenated text
/// form (`uuid::Uuid::new_v4` and its `Display`, which writes lowercase
/// hyphenated hex; `new_v4` sets the version and variant bits). Claimed: the
/// text has that form. Which id it is, is random and not stated.
#[verifier::external_body]
fn new_connection_id() -> (r: String)
    ensures
        is_uuid_v4_text(r@),
{
    uuid::Uuid::new_v4().to_string()
}

/// Whether the receiving half of a connection's channel has gone
/// (`UnboundedSender::is_closed`). That depends on the other task, so
/// nothing is stated of the result.
#[verifier::external_body]
pub(crate) fn sender_is_closed<M>(sender: &tokio::sync::mpsc::UnboundedSender<M>) -> bool {
    sender.is_closed()
}

/// Another handle on the same channel (`UnboundedSender::clone`). The
/// sender's one field is an `Arc` of the shared channel, and the clone holds
/// a clone of that `Arc`, so as values the two are equal: claimed.
#[verifier::external_body]
fn clone_sender<M>(sender: &tokio::sync::mpsc::UnboundedSender<M>) -> (r: tokio::sync::mpsc::UnboundedSender<M>)
    ensures
        r == *sender,
{
    sender.clone()
}

/// Wire format a connection expects for push messages.
#[derive(Debug, Clone, Copy, PartialEq, Eq, Structural)]
pub enum ConnectionFormat {
    Json,
    Binary,
}

impl Default for ConnectionFormat {
    fn default() -> (r: Self)
        ensures
            r == ConnectionFormat::Json,
    {
        ConnectionFormat::Json
    }
}

/// The format a connection asks for by name: `"binary"`, or JSON for
/// anything else.
pub open spec fn format_named(s: Option<Seq<char>>) -> ConnectionFormat {
    if s == Some(seq!['b', 'i', 'n', 'a', 'r', 'y']) {
        ConnectionFormat::Binary
    } else {
        ConnectionFormat::Json
    }
}

impl ConnectionFormat {
    pub fn from_str_opt(s: Option<&str>) -> (r: Self)
        ensures
            r == format_named(
                match s {
                    Some(t) => Some(t@),
                    None => None,
                },
            ),
    {
        match s {
            Some(t) => {
                let b = String::from_str("binary");
                proof {
                    reveal_strlit("binary");
                    assert("binary"@ =~= seq!['b', 'i', 'n', 'a', 'r', 'y']);
                }
                let t = String::from_str(t);
                if t == b {
                    ConnectionFormat::Binary
                } else {
                    ConnectionFormat::Json
                }
            },
            None => ConnectionFormat::Json,
        }
    }
}

/// What is reported of a connection.
#[derive(Debug)]
pub struct ConnectionInfo {
    pub connection_id: String,
    pub user_id: String,
    pub ip_address: Option<String>,
    pub authenticated: bool,
    pub subscriptions: Vec<String>,
    pub format: ConnectionFormat,
    pub data: JsonValue,
    pub connected: bool,
    pub server_id: String,
    pub server_session_id: String,
    pub created_at: Timestamp,
    pub updated_at: Timestamp,
}

/// The query of a WebSocket upgrade request.
#[derive(Debug)]
pub struct QueryParams {
    pub connection_id: Option<String>,
    /// Comma-separated subscription channels (for inline registration without REST).
    pub subscriptions: Option<String>,
    /// Wire format: "json" (default) or "binary".
    pub format: Option<String>,
}

/// Why an operation on a connection did not go through.
#[derive(Debug, Clone, Copy, PartialEq, Eq, Structural)]
pub enum ConnectionError {
    /// "Connection not found"
    ConnectionNotFound,
    /// "No matching connection"
    NoMatchingConnection,
    /// "Data is not a JSON object"
    DataNotObject,
    /// "Key not found"
    KeyNotFound,
    /// The data field is not an array of strings.
    NotAStringList,
}

#[derive(Debug)]
#[verifier::reject_recursive_types(M)]
pub struct CnctdConnection<M> {
    pub user_id: String,
    pub ip_address: Option<String>,
    pub authenticated: bool,
    pub subscriptions: Vec<String>,
    pub format: ConnectionFormat,
    pub sender: Option<tokio::sync::mpsc::UnboundedSender<M>>,
    pub data: JsonValue,
    pub created_at: Timestamp,
    pub updated_at: Timestamp,
}

/// The model of a connection: what the library reads and reports of it.
pub struct ConnectionView {
    pub user_id: Seq<char>,
    pub ip_address: Option<Seq<char>>,
    pub authenticated: bool,
    pub subscriptions: Seq<Seq<char>>,
    pub format: ConnectionFormat,
    /// Whether a socket is attached (a sender is set).
    pub connected: bool,
    pub data: JsonData,
    pub created_at: Timestamp,
    pub updated_at: Timestamp,
}

pub open spec fn opt_view(s: Option<String>) -> Option<Seq<char>> {
    match s {
        Some(t) => Some(t@),
        None => None,
    }
}

impl<M> View for CnctdConnection<M> {
    type V = ConnectionView;

    open spec fn view(&self) -> ConnectionView {
        ConnectionView {
            user_id: self.user_id@,
            ip_address: opt_view(self.ip_address),
            authenticated: self.authenticated,
            subscriptions: self.subscriptions@.map_values(|s: String| s@),
            format: self.format,
            connected: self.sender is Some,
            data: self.data@,
            created_at: self.created_at,
            updated_at: self.updated_at,
        }
    }
}

/// `subs` with `channel` added at the end unless it is there already.
pub open spec fn add_channel(subs: Seq<Seq<char>>, channel: Seq<char>) -> Seq<Seq<char>> {
    if subs.contains(channel) {
        subs
    } else {
        subs.push(channel)
    }
}

/// `subs` without the first occurrence of `channel`.
pub open spec fn remove_channel(subs: Seq<Seq<char>>, channel: Seq<char>) -> Seq<Seq<char>>
    decreases subs.len(),
{
    if subs.len() == 0 {
        subs
    } else if subs[0] == channel {
        subs.drop_first()
    } else {
        seq![subs[0]] + remove_channel(subs.drop_first(), channel)
    }
}

/// `subs` after adding each of `channels` in turn.
pub open spec fn add_channels(subs: Seq<Seq<char>>, channels: Seq<Seq<char>>) -> Seq<Seq<char>>
    decreases channels.len(),
{
    if channels.len() == 0 {
        subs
    } else {
        add_channel(add_channels(subs, channels.drop_last()), channels.last())
    }
}

/// `subs` after removing each of `channels` in turn.
pub open spec fn remove_channels(subs: Seq<Seq<char>>, channels: Seq<Seq<char>>) -> Seq<
    Seq<char>,
>
    decreases channels.len(),
{
    if channels.len() == 0 {
        subs
    } else {
        remove_channel(remove_channels(subs, channels.drop_last()), channels.last())
    }
}

impl ConnectionView {
    pub open spec fn with_data(self, data: JsonData) -> ConnectionView {
        ConnectionView { data, ..self }
    }

    pub open spec fn with_subscriptions(self, subscriptions: Seq<Seq<char>>) -> ConnectionView {
        ConnectionView { subscriptions, ..self }
    }

    pub open spec fn with_user_id(self, user_id: Seq<char>) -> ConnectionView {
        ConnectionView { user_id, ..self }
    }

    pub open spec fn with_connected(self, connected: bool) -> ConnectionView {
        ConnectionView { connected, ..self }
    }

    pub open spec fn with_authenticated(self, authenticated: bool) -> ConnectionView {
        ConnectionView { authenticated, ..self }
    }

    /// The member `key` of the connection's data is the string `value`.
    pub open spec fn owns_key_value(self, key: Seq<char>, value: Seq<char>) -> bool {
        match self.data.field(key) {
            Some(v) => v.as_text() == Some(value),
            None => false,
        }
    }
}

/// `info` reports the connection `id` whose model is `c`, on the server
/// `server_id` in its session `session_id`.
pub open spec fn reports(
    info: ConnectionInfo,
    id: Seq<char>,
    c: ConnectionView,
    server_id: Seq<char>,
    session_id: Seq<char>,
) -> bool {
    &&& info.connection_id@ == id
    &&& info.user_id@ == c.user_id
    &&& opt_view(info.ip_address) == c.ip_address
    &&& info.authenticated == c.authenticated
    &&& info.subscriptions@.map_values(|s: String| s@) == c.subscriptions
    &&& info.format == c.format
    &&& info.data@ == c.data
    &&& info.connected == c.connected
    &&& info.server_id@ == server_id
    &&& info.server_session_id@ == session_id
    &&& info.created_at == c.created_at
    &&& info.updated_at == c.updated_at
}

// ---------------------------------------------------------------------------
// The map of all connections, by id.
pub open spec fn keys_distinct<M>(s: Seq<(String, CnctdConnection<M>)>) -> bool {
    forall|i: int, j: int|
        0 <= i < s.len() && 0 <= j < s.len() && i != j ==> (#[trigger] s[i]).0@ != (
        #[trigger] s[j]).0@
}

pub open spec fn has_key<M>(s: Seq<(String, CnctdConnection<M>)>, k: Seq<char>) -> bool {
    exists|i: int| 0 <= i < s.len() && (#[trigger] s[i]).0@ == k
}

pub open spec fn map_of<M>(s: Seq<(String, CnctdConnection<M>)>) -> Map<Seq<char>, ConnectionView> {
    Map::new(
        |k: Seq<char>| has_key(s, k),
        |k: Seq<char>| s[choose|i: int| 0 <= i < s.len() && (#[trigger] s[i]).0@ == k].1@,
    )
}

proof fn lemma_map_of_at<M>(s: Seq<(String, CnctdConnection<M>)>, i: int)
    requires
        keys_distinct(s),
        0 <= i < s.len(),
    ensures
        map_of(s).contains_key(s[i].0@),
        map_of(s)[s[i].0@] == s[i].1@,
{
    let k = s[i].0@;
    assert(has_key(s, k));
    let j = choose|j: int| 0 <= j < s.len() && (#[trigger] s[j]).0@ == k;
    assert(j == i);
}

proof fn lemma_map_of_update<M>(s: Seq<(String, CnctdConnection<M>)>, i: int, e: (String, CnctdConnection<M>))
    requires
        keys_distinct(s),
        0 <= i < s.len(),
        e.0@ == s[i].0@,
    ensures
        keys_distinct(s.update(i, e)),
        map_of(s.update(i, e)) == map_of(s).insert(e.0@, e.1@),
{
    let t = s.update(i, e);
    assert(keys_distinct(t)) by {
        assert forall|a: int, b: int|
            0 <= a < t.len() && 0 <= b < t.len() && a != b implies (#[trigger] t[a]).0@ != (
            #[trigger] t[b]).0@ by {
            assert(s[a].0@ != s[b].0@);
        }
    }
    assert forall|k: Seq<char>| has_key(t, k) <==> has_key(s, k) by {
        if has_key(t, k) {
            let j = choose|j: int| 0 <= j < t.len() && (#[trigger] t[j]).0@ == k;
            assert(s[j].0@ == k);
        }
        if has_key(s, k) {
            let j = choose|j: int| 0 <= j < s.len() && (#[trigger] s[j]).0@ == k;
            assert(t[j].0@ == k);
        }
    }
    assert forall|k: Seq<char>| #[trigger]
        map_of(t).contains_key(k) implies map_of(t)[k] == map_of(s).insert(e.0@, e.1@)[k] by {
        let j = choose|j: int| 0 <= j < t.len() && (#[trigger] t[j]).0@ == k;
        lemma_map_of_at(t, j);
        lemma_map_of_at(s, j);
    }
    assert(map_of(t) =~= map_of(s).insert(e.0@, e.1@));
}

proof fn lemma_map_of_push<M>(s: Seq<(String, CnctdConnection<M>)>, e: (String, CnctdConnection<M>))
    requires
        keys_distinct(s),
        !has_key(s, e.0@),
    ensures
        keys_distinct(s.push(e)),
        map_of(s.push(e)) == map_of(s).insert(e.0@, e.1@),
{
    let t = s.push(e);
    assert(keys_distinct(t)) by {
        assert forall|a: int, b: int|
            0 <= a < t.len() && 0 <= b < t.len() && a != b implies (#[trigger] t[a]).0@ != (
            #[trigger] t[b]).0@ by {
            if a < s.len() && b < s.len() {
                assert(s[a].0@ != s[b].0@);
            } else if a < s.len() {
                assert(t[a] == s[a]);
            } else {
                assert(t[b] == s[b]);
            }
        }
    }
    assert forall|k: Seq<char>| has_key(t, k) <==> (has_key(s, k) || k == e.0@) by {
        if has_key(t, k) {
            let j = choose|j: int| 0 <= j < t.len() && (#[trigger] t[j]).0@ == k;
            if j < s.len() {
                assert(s[j].0@ == k);
            }
        }
        if has_key(s, k) {
            let j = choose|j: int| 0 <= j < s.len() && (#[trigger] s[j]).0@ == k;
            assert(t[j].0@ == k);
        }
        if k == e.0@ {
            assert(t[s.len() as int].0@ == k);
        }
    }
    assert forall|k: Seq<char>| #[trigger]
        map_of(t).contains_key(k) implies map_of(t)[k] == map_of(s).insert(e.0@, e.1@)[k] by {
        let j = choose|j: int| 0 <= j < t.len() && (#[trigger] t[j]).0@ == k;
        lemma_map_of_at(t, j);
        if j < s.len() {
            lemma_map_of_at(s, j);
        }
    }
    assert(map_of(t) =~= map_of(s).insert(e.0@, e.1@));
}

proof fn lemma_map_of_remove<M>(s: Seq<(String, CnctdConnection<M>)>, i: int)
    requires
        keys_distinct(s),
        0 <= i < s.len(),
    ensures
        keys_distinct(s.remove(i)),
        map_of(s.remove(i)) == map_of(s).remove(s[i].0@),
{
    let t = s.remove(i);
    let k0 = s[i].0@;
    assert(keys_distinct(t)) by {
        assert forall|a: int, b: int|
            0 <= a < t.len() && 0 <= b < t.len() && a != b implies (#[trigger] t[a]).0@ != (
            #[trigger] t[b]).0@ by {
            let a2 = if a < i { a } else { a + 1 };
            let b2 = if b < i { b } else { b + 1 };
            assert(t[a] == s[a2]);
            assert(t[b] == s[b2]);
            assert(s[a2].0@ != s[b2].0@);
        }
    }
    assert forall|k: Seq<char>| has_key(t, k) <==> (has_key(s, k) && k != k0) by {
        if has_key(t, k) {
            let j = choose|j: int| 0 <= j < t.len() && (#[trigger] t[j]).0@ == k;
            let j2 = if j < i { j } else { j + 1 };
            assert(s[j2].0@ == k);
            assert(s[i].0@ != s[j2].0@);
        }
        if has_key(s, k) && k != k0 {
            let j = choose|j: int| 0 <= j < s.len() && (#[trigger] s[j]).0@ == k;
            if j < i {
                assert(t[j].0@ == k);
            } else {
                assert(j != i);
                assert(t[j - 1].0@ == k);
            }
        }
    }
    assert forall|k: Seq<char>| #[trigger]
        map_of(t).contains_key(k) implies map_of(t)[k] == map_of(s).remove(k0)[k] by {
        let j = choose|j: int| 0 <= j < t.len() && (#[trigger] t[j]).0@ == k;
        let j2 = if j < i { j } else { j + 1 };
        lemma_map_of_at(t, j);
        lemma_map_of_at(s, j2);
    }
    assert(map_of(t) =~= map_of(s).remove(k0));
}

/// The sender held by the entry for `k` (meaningful when there is one).
pub open spec fn sender_in<M>(s: Seq<(String, CnctdConnection<M>)>, k: Seq<char>) -> Option<
    tokio::sync::mpsc::UnboundedSender<M>,
> {
    s[choose|i: int| 0 <= i < s.len() && (#[trigger] s[i]).0@ == k].1.sender
}

proof fn lemma_sender_at<M>(s: Seq<(String, CnctdConnection<M>)>, i: int)
    requires
        keys_distinct(s),
        0 <= i < s.len(),
    ensures
        sender_in(s, s[i].0@) == s[i].1.sender,
{
    let k = s[i].0@;
    assert(has_key(s, k));
    let j = choose|j: int| 0 <= j < s.len() && (#[trigger] s[j]).0@ == k;
    assert(j == i);
}

/// Every connection of the server, by id.
#[verifier::reject_recursive_types(M)]
pub struct ConnectionMap<M> {
    entries: Vec<(String, CnctdConnection<M>)>,
}

impl<M> View for ConnectionMap<M> {
    type V = Map<Seq<char>, ConnectionView>;

    closed spec fn view(&self) -> Map<Seq<char>, ConnectionView> {
        map_of(self.entries@)
    }
}

impl<M> ConnectionMap<M> {
    /// The map is well formed: no id occurs twice.
    pub closed spec fn wf(&self) -> bool {
        keys_distinct(self.entries@)
    }

    /// The sending half of the channel of the connection `id`'s socket, as
    /// the map holds it (meaningful when there is such a connection).
    pub closed spec fn sender_of(&self, id: Seq<char>) -> Option<tokio::sync::mpsc::UnboundedSender<M>> {
        sender_in(self.entries@, id)
    }

    /// An empty map.
    pub fn new() -> (r: Self)
        ensures
            r.wf(),
            r@ == Map::<Seq<char>, ConnectionView>::empty(),
    {
        let r = ConnectionMap { entries: Vec::new() };
        assert(r@ =~= Map::<Seq<char>, ConnectionView>::empty());
        r
    }

    fn index_of(&self, id: &str) -> (r: Option<usize>)
        requires
            self.wf(),
        ensures
            match r {
                Some(i) => i < self.entries@.len() && self.entries@[i as int].0@ == id@,
                None => !self@.contains_key(id@),
            },
    {
        let k = String::from_str(id);
        let mut i: usize = 0;
        while i < self.entries.len()
            invariant
                i <= self.entries@.len(),
                k@ == id@,
                forall|j: int| 0 <= j < i ==> (#[trigger] self.entries@[j]).0@ != id@,
            decreases self.entries@.len() - i,
        {
            if self.entries[i].0 == k {
                return Some(i);
            }
            i = i + 1;
        }
        None
    }

    /// The number of connections.
    pub fn len(&self) -> (r: usize)
        requires
            self.wf(),
        ensures
            r == self@.len(),
    {
        proof {
            let keys = self.entries@.map_values(|e: (String, CnctdConnection<M>)| e.0@);
            assert(keys.no_duplicates()) by {
                assert forall|a: int, b: int|
                    0 <= a < keys.len() && 0 <= b < keys.len() && a != b implies keys[a]
                    != keys[b] by {
                    assert(self.entries@[a].0@ != self.entries@[b].0@);
                }
            }
            keys.unique_seq_to_set();
            assert forall|k: Seq<char>| #[trigger] keys.to_set().contains(k) <==> self@.dom().contains(k) by {
                if keys.to_set().contains(k) {
                    let j = choose|j: int| 0 <= j < keys.len() && keys[j] == k;
                    assert(self.entries@[j].0@ == k);
                }
                if self@.dom().contains(k) {
                    let j = choose|j: int| 0 <= j < self.entries@.len() && (#[trigger] self.entries@[j]).0@ == k;
                    assert(keys[j] == k);
                }
            }
            assert(keys.to_set() =~= self@.dom());
        }
        self.entries.len()
    }

    /// Whether there is a connection `id`.
    pub fn contains(&self, id: &str) -> (r: bool)
        requires
            self.wf(),
        ensures
            r == self@.contains_key(id@),
    {
        match self.index_of(id) {
            Some(i) => {
                proof {
                    lemma_map_of_at(self.entries@, i as int);
                }
                true
            },
            None => false,
        }
    }

    /// The connection `id`, if there is one.
    pub fn get(&self, id: &str) -> (r: Option<&CnctdConnection<M>>)
        requires
            self.wf(),
        ensures
            match r {
                Some(c) => self@.contains_key(id@) && c@ == self@[id@] && c.sender == self.sender_of(
                    id@,
                ),
                None => !self@.contains_key(id@),
            },
    {
        match self.index_of(id) {
            Some(i) => {
                proof {
                    lemma_map_of_at(self.entries@, i as int);
                    lemma_sender_at(self.entries@, i as int);
                }
                Some(&self.entries[i].1)
            },
            None => None,
        }
    }

    /// Adds the connection `id`, or replaces it if there is one.
    pub fn insert(&mut self, id: String, connection: CnctdConnection<M>)
        requires
            old(self).wf(),
        ensures
            final(self).wf(),
            final(self)@ == old(self)@.insert(id@, connection@),
    {
        match self.index_of(id.as_str()) {
            Some(i) => {
                proof {
                    lemma_map_of_update(self.entries@, i as int, (id, connection));
                }
                self.entries.set(i, (id, connection));
            },
            None => {
                proof {
                    if has_key(self.entries@, id@) {
                        let j = choose|j: int|
                            0 <= j < self.entries@.len() && (#[trigger] self.entries@[j]).0@
                                == id@;
                        lemma_map_of_at(self.entries@, j);
                    }
                    lemma_map_of_push(self.entries@, (id, connection));
                }
                self.entries.push((id, connection));
            },
        }
    }

    /// Removes the connection `id`, if there is one.
    pub fn remove(&mut self, id: &str)
        requires
            old(self).wf(),
        ensures
            final(self).wf(),
            final(self)@ == old(self)@.remove(id@),
    {
        match self.index_of(id) {
            Some(i) => {
                proof {
                    lemma_map_of_remove(self.entries@, i as int);
                }
                self.entries.remove(i);
            },
            None => {
                assert(self@.remove(id@) =~= self@);
            },
        }
    }
}


pub open spec fn strings_view(v: Seq<String>) -> Seq<Seq<char>> {
    v.map_values(|s: String| s@)
}

/// A copy of a list of strings.
pub fn copy_strings(v: &Vec<String>) -> (r: Vec<String>)
    ensures
        strings_view(r@) == strings_view(v@),
{
    let mut out: Vec<String> = Vec::new();
    let mut i: usize = 0;
    while i < v.len()
        invariant
            i <= v@.len(),
            out@.len() == i,
            forall|j: int| 0 <= j < i ==> (#[trigger] out@[j])@ == v@[j]@,
        decreases v@.len() - i,
    {
        out.push(v[i].clone());
        i = i + 1;
    }
    assert(strings_view(out@) =~= strings_view(v@));
    out
}

fn copy_opt_string(s: &Option<String>) -> (r: Option<String>)
    ensures
        opt_view(r) == opt_view(*s),
{
    match s {
        Some(t) => Some(t.clone()),
        None => None,
    }
}

fn contains_string(v: &Vec<String>, s: &String) -> (r: bool)
    ensures
        r == strings_view(v@).contains(s@),
{
    let mut i: usize = 0;
    while i < v.len()
        invariant
            i <= v@.len(),
            forall|j: int| 0 <= j < i ==> (#[trigger] v@[j])@ != s@,
        decreases v@.len() - i,
    {
        if v[i] == *s {
            assert(strings_view(v@)[i as int] == s@);
            return true;
        }
        i = i + 1;
    }
    assert forall|j: int| 0 <= j < strings_view(v@).len() implies strings_view(v@)[j] != s@ by {
        assert(strings_view(v@)[j] == v@[j]@);
    }
    false
}

/// The connection model of a new, unattached connection.
pub open spec fn is_fresh(
    c: ConnectionView,
    subscriptions: Seq<Seq<char>>,
    ip_address: Option<Seq<char>>,
    format: ConnectionFormat,
) -> bool {
    &&& c.user_id == Seq::<char>::empty()
    &&& c.ip_address == ip_address
    &&& !c.authenticated
    &&& c.subscriptions == subscriptions
    &&& c.format == format
    &&& !c.connected
    &&& c.data == JsonData::Object(seq![])
}

proof fn lemma_replace<M>(
    s: Seq<(String, CnctdConnection<M>)>,
    i: int,
    e: (String, CnctdConnection<M>),
    t: Seq<(String, CnctdConnection<M>)>,
)
    requires
        keys_distinct(s),
        0 <= i < s.len(),
        e.0@ == s[i].0@,
        t == s.remove(i).insert(i, e),
    ensures
        keys_distinct(t),
        map_of(t) == map_of(s).insert(e.0@, e.1@),
        map_of(s).contains_key(e.0@),
        map_of(s)[e.0@] == s[i].1@,
{
    assert(t =~= s.update(i, e));
    lemma_map_of_update(s, i, e);
    lemma_map_of_at(s, i);
}

impl<M> CnctdConnection<M> {
    pub fn new(subscriptions: Vec<String>, ip_address: Option<String>, format: ConnectionFormat) -> (r: Self)
        ensures
            is_fresh(r@, strings_view(subscriptions@), opt_view(ip_address), format),
    {
        let r = CnctdConnection {
            user_id: String::new(),
            ip_address,
            authenticated: false,
            subscriptions,
            format,
            sender: None,
            data: JsonValue::empty_object(),
            created_at: current_time(),
            updated_at: current_time(),
        };
        r
    }

    /// A copy of this connection; the copy's sender is another handle on the
    /// same channel.
    pub fn duplicate(&self) -> (r: Self)
        ensures
            r@ == self@,
            r.sender == self.sender,
    {
        CnctdConnection {
            user_id: self.user_id.clone(),
            ip_address: copy_opt_string(&self.ip_address),
            authenticated: self.authenticated,
            subscriptions: copy_strings(&self.subscriptions),
            format: self.format,
            sender: match &self.sender {
                Some(s) => Some(clone_sender(s)),
                None => None,
            },
            data: self.data.duplicate(),
            created_at: self.created_at,
            updated_at: self.updated_at,
        }
    }

    /// Registers a new JSON connection and returns its fresh id.
    pub fn register_connection(
        connections: &mut ConnectionMap<M>,
        subscriptions: Vec<String>,
        ip_address: Option<String>,
    ) -> (id: String)
        requires
            old(connections).wf(),
        ensures
            final(connections).wf(),
            is_uuid_v4_text(id@),
            final(connections)@.contains_key(id@),
            final(connections)@.remove(id@) == old(connections)@.remove(id@),
            is_fresh(
                final(connections)@[id@],
                strings_view(subscriptions@),
                opt_view(ip_address),
                ConnectionFormat::Json,
            ),
    {
        Self::register_connection_with_format(
            connections,
            subscriptions,
            ip_address,
            ConnectionFormat::Json,
        )
    }

    /// Registers a new connection with the given wire format and returns its
    /// fresh id.
    pub fn register_connection_with_format(
        connections: &mut ConnectionMap<M>,
        subscriptions: Vec<String>,
        ip_address: Option<String>,
        format: ConnectionFormat,
    ) -> (id: String)
        requires
            old(connections).wf(),
        ensures
            final(connections).wf(),
            is_uuid_v4_text(id@),
            final(connections)@.contains_key(id@),
            final(connections)@.remove(id@) == old(connections)@.remove(id@),
            is_fresh(
                final(connections)@[id@],
                strings_view(subscriptions@),
                opt_view(ip_address),
                format,
            ),
    {
        let connection_id = new_connection_id();
        let connection = Self::new(subscriptions, ip_address, format);
        let ghost before = connections@;
        connections.insert(connection_id.clone(), connection);
        assert(connections@.remove(connection_id@) =~= before.remove(connection_id@));
        connection_id
    }

    /// What is reported of this connection, as the connection `connection_id`
    /// of the server `server_id` in its session `server_session_id`.
    pub fn to_connection_info(
        &self,
        connection_id: &str,
        server_id: String,
        server_session_id: String,
    ) -> (r: ConnectionInfo)
        ensures
            reports(r, connection_id@, self@, server_id@, server_session_id@),
    {
        let info = ConnectionInfo {
            connection_id: String::from_str(connection_id),
            user_id: self.user_id.clone(),
            ip_address: copy_opt_string(&self.ip_address),
            authenticated: self.authenticated,
            subscriptions: copy_strings(&self.subscriptions),
            format: self.format,
            data: self.data.duplicate(),
            connected: self.sender.is_some(),
            server_id,
            server_session_id,
            created_at: self.created_at,
            updated_at: self.updated_at,
        };
        info
    }

    /// Replaces the data of the connection `connection_id`; nothing happens
    /// when there is no such connection.
    pub fn add_data(connections: &mut ConnectionMap<M>, connection_id: &str, data: JsonValue)
        requires
            old(connections).wf(),
        ensures
            final(connections).wf(),
            final(connections)@ == if old(connections)@.contains_key(connection_id@) {
                old(connections)@.insert(
                    connection_id@,
                    old(connections)@[connection_id@].with_data(data@),
                )
            } else {
                old(connections)@
            },
    {
        match connections.index_of(connection_id) {
            Some(i) => {
                let ghost s = connections.entries@;
                let mut e = connections.entries.remove(i);
                e.1.data = data;
                connections.entries.insert(i, e);
                proof {
                    lemma_replace(s, i as int, e, connections.entries@);
                    assert(e.1@ == s[i as int].1@.with_data(data@));
                }
            },
            None => {},
        }
    }

    /// Sets the member `key` of the data of the connection `connection_id`.
    /// Fails, changing nothing, when that data is not an object; nothing
    /// happens when there is no such connection.
    pub fn update_data_field(
        connections: &mut ConnectionMap<M>,
        connection_id: &str,
        key: &str,
        value: JsonValue,
    ) -> (r: Result<(), ConnectionError>)
        requires
            old(connections).wf(),
        ensures
            final(connections).wf(),
            !old(connections)@.contains_key(connection_id@) ==> r is Ok && final(connections)@
                == old(connections)@,
            old(connections)@.contains_key(connection_id@) ==> {
                let c = old(connections)@[connection_id@];
                if c.data.is_object() {
                    &&& r is Ok
                    &&& final(connections)@ == old(connections)@.insert(
                        connection_id@,
                        c.with_data(c.data.with_field(key@, value@)),
                    )
                } else {
                    &&& r == Err::<(), ConnectionError>(ConnectionError::DataNotObject)
                    &&& final(connections)@ == old(connections)@
                }
            },
    {
        match connections.index_of(connection_id) {
            Some(i) => {
                let ghost s = connections.entries@;
                let mut e = connections.entries.remove(i);
                let is_object = e.1.data.insert_field(String::from_str(key), value);
                connections.entries.insert(i, e);
                proof {
                    lemma_replace(s, i as int, e, connections.entries@);
                }
                if is_object {
                    Ok(())
                } else {
                    proof {
                        assert(e.1@ == s[i as int].1@);
                        assert(connections@ =~= map_of(s));
                    }
                    Err(ConnectionError::DataNotObject)
                }
            },
            None => Ok(()),
        }
    }

    /// Removes the member `key` of the data of the connection
    /// `connection_id`. Fails, changing nothing, when that data is not an
    /// object; nothing happens when there is no such connection.
    pub fn remove_data_field(connections: &mut ConnectionMap<M>, connection_id: &str, key: &str) -> (r:
        Result<(), ConnectionError>)
        requires
            old(connections).wf(),
        ensures
            final(connections).wf(),
            !old(connections)@.contains_key(connection_id@) ==> r is Ok && final(connections)@
                == old(connections)@,
            old(connections)@.contains_key(connection_id@) ==> {
                let c = old(connections)@[connection_id@];
                if c.data.is_object() {
                    &&& r is Ok
                    &&& final(connections)@ == old(connections)@.insert(
                        connection_id@,
                        c.with_data(c.data.without_field(key@)),
                    )
                } else {
                    &&& r == Err::<(), ConnectionError>(ConnectionError::DataNotObject)
                    &&& final(connections)@ == old(connections)@
                }
            },
    {
        match connections.index_of(connection_id) {
            Some(i) => {
                let ghost s = connections.entries@;
                let mut e = connections.entries.remove(i);
                let is_object = e.1.data.remove_field(key);
                connections.entries.insert(i, e);
                proof {
                    lemma_replace(s, i as int, e, connections.entries@);
                }
                if is_object {
                    Ok(())
                } else {
                    proof {
                        assert(e.1@ == s[i as int].1@);
                        assert(connections@ =~= map_of(s));
                    }
                    Err(ConnectionError::DataNotObject)
                }
            },
            None => Ok(()),
        }
    }
}


/// `out` lists, once each, the ids among the first `i` entries of `s` whose
/// connection satisfies `pred`.
pub open spec fn collected<M>(
    s: Seq<(String, CnctdConnection<M>)>,
    pred: spec_fn(ConnectionView) -> bool,
    i: int,
    out: Seq<Seq<char>>,
) -> bool {
    &&& out.no_duplicates()
    &&& forall|x: Seq<char>|
        #[trigger] out.contains(x) <==> exists|j: int|
            0 <= j < i && (#[trigger] s[j]).0@ == x && pred(s[j].1@)
}

proof fn lemma_collect_step<M>(
    s: Seq<(String, CnctdConnection<M>)>,
    pred: spec_fn(ConnectionView) -> bool,
    i: int,
    out: Seq<Seq<char>>,
)
    requires
        keys_distinct(s),
        0 <= i < s.len(),
        collected(s, pred, i, out),
    ensures
        collected(s, pred, i + 1, if pred(s[i].1@) { out.push(s[i].0@) } else { out }),
{
    let out2 = if pred(s[i].1@) { out.push(s[i].0@) } else { out };
    if pred(s[i].1@) {
        assert(!out.contains(s[i].0@)) by {
            if out.contains(s[i].0@) {
                let j = choose|j: int| 0 <= j < i && (#[trigger] s[j]).0@ == s[i].0@ && pred(s[j].1@);
                assert(s[j].0@ != s[i].0@);
            }
        }
        assert forall|a: int, b: int| 0 <= a < out2.len() && 0 <= b < out2.len() && a != b implies out2[a] != out2[b] by {
            if a < out.len() && b < out.len() {
            } else if a < out.len() {
                assert(out.contains(out[a]));
            } else {
                assert(out.contains(out[b]));
            }
        }
    }
    assert forall|x: Seq<char>| #[trigger] out2.contains(x) <==> exists|j: int|
        0 <= j < i + 1 && (#[trigger] s[j]).0@ == x && pred(s[j].1@) by {
        if out2.contains(x) {
            if out.contains(x) {
                let j = choose|j: int| 0 <= j < i && (#[trigger] s[j]).0@ == x && pred(s[j].1@);
                assert(0 <= j < i + 1 && s[j].0@ == x && pred(s[j].1@));
            } else {
                let k = choose|k: int| 0 <= k < out2.len() && out2[k] == x;
                assert(k == out.len());
                assert(s[i].0@ == x && pred(s[i].1@));
            }
        }
        if exists|j: int| 0 <= j < i + 1 && (#[trigger] s[j]).0@ == x && pred(s[j].1@) {
            let j = choose|j: int| 0 <= j < i + 1 && (#[trigger] s[j]).0@ == x && pred(s[j].1@);
            if j < i {
                assert(out.contains(x));
                let k = choose|k: int| 0 <= k < out.len() && out[k] == x;
                assert(out2[k] == x);
            } else {
                assert(out2[out2.len() - 1] == x);
            }
        }
    }
}

proof fn lemma_collect_done<M>(
    s: Seq<(String, CnctdConnection<M>)>,
    pred: spec_fn(ConnectionView) -> bool,
    out: Seq<Seq<char>>,
)
    requires
        keys_distinct(s),
        collected(s, pred, s.len() as int, out),
    ensures
        out.no_duplicates(),
        forall|x: Seq<char>|
            #[trigger] out.contains(x) <==> (map_of(s).contains_key(x) && pred(map_of(s)[x])),
{
    assert forall|x: Seq<char>| #[trigger] out.contains(x) <==> (map_of(s).contains_key(x) && pred(
        map_of(s)[x],
    )) by {
        if out.contains(x) {
            let j = choose|j: int| 0 <= j < s.len() && (#[trigger] s[j]).0@ == x && pred(s[j].1@);
            lemma_map_of_at(s, j);
        }
        if map_of(s).contains_key(x) && pred(map_of(s)[x]) {
            let j = choose|j: int| 0 <= j < s.len() && (#[trigger] s[j]).0@ == x;
            lemma_map_of_at(s, j);
            assert(0 <= j < s.len() && s[j].0@ == x && pred(s[j].1@));
        }
    }
}

proof fn lemma_remove_channel_at(subs: Seq<Seq<char>>, c: Seq<char>, i: int)
    requires
        0 <= i <= subs.len(),
        forall|j: int| 0 <= j < i ==> subs[j] != c,
        i < subs.len() ==> subs[i] == c,
    ensures
        remove_channel(subs, c) == if i < subs.len() {
            subs.remove(i)
        } else {
            subs
        },
    decreases i,
{
    if i > 0 {
        lemma_remove_channel_at(subs.drop_first(), c, i - 1);
        if i < subs.len() {
            assert(seq![subs[0]] + subs.drop_first().remove(i - 1) =~= subs.remove(i));
        } else {
            assert(seq![subs[0]] + subs.drop_first() =~= subs);
        }
    } else if subs.len() > 0 {
        assert(subs.drop_first() =~= subs.remove(0));
    }
}

fn position_of(v: &Vec<String>, s: &String) -> (r: Option<usize>)
    ensures
        match r {
            Some(i) => i < v@.len() && v@[i as int]@ == s@ && forall|j: int|
                0 <= j < i ==> (#[trigger] v@[j])@ != s@,
            None => forall|j: int| 0 <= j < v@.len() ==> (#[trigger] v@[j])@ != s@,
        },
{
    let mut i: usize = 0;
    while i < v.len()
        invariant
            i <= v@.len(),
            forall|j: int| 0 <= j < i ==> (#[trigger] v@[j])@ != s@,
        decreases v@.len() - i,
    {
        if v[i] == *s {
            return Some(i);
        }
        i = i + 1;
    }
    None
}

/// Adds `channel` to `subs` unless it is there already.
fn add_channel_to(subs: &mut Vec<String>, channel: String)
    ensures
        strings_view(final(subs)@) == add_channel(strings_view(old(subs)@), channel@),
{
    if !contains_string(subs, &channel) {
        let ghost before = strings_view(subs@);
        subs.push(channel);
        assert(strings_view(subs@) =~= before.push(channel@));
    }
}

/// Removes the first occurrence of `channel` from `subs`.
fn remove_channel_from(subs: &mut Vec<String>, channel: &String)
    ensures
        strings_view(final(subs)@) == remove_channel(strings_view(old(subs)@), channel@),
{
    let ghost before = strings_view(subs@);
    match position_of(subs, channel) {
        Some(i) => {
            proof {
                lemma_remove_channel_at(before, channel@, i as int);
            }
            subs.remove(i);
            assert(strings_view(subs@) =~= before.remove(i as int));
        },
        None => {
            proof {
                lemma_remove_channel_at(before, channel@, before.len() as int);
            }
        },
    }
}

impl<M> CnctdConnection<M> {
    /// The data of the connection `connection_id`.
    pub fn get_data(connections: &ConnectionMap<M>, connection_id: &str) -> (r: Result<
        JsonValue,
        ConnectionError,
    >)
        requires
            connections.wf(),
        ensures
            match r {
                Ok(d) => connections@.contains_key(connection_id@) && d@
                    == connections@[connection_id@].data,
                Err(e) => !connections@.contains_key(connection_id@) && e
                    == ConnectionError::ConnectionNotFound,
            },
    {
        match connections.get(connection_id) {
            Some(c) => Ok(c.data.duplicate()),
            None => Err(ConnectionError::ConnectionNotFound),
        }
    }

    /// The member `key` of the data of the connection `connection_id`.
    pub fn get_data_field(connections: &ConnectionMap<M>, connection_id: &str, key: &str) -> (r:
        Result<JsonValue, ConnectionError>)
        requires
            connections.wf(),
        ensures
            !connections@.contains_key(connection_id@) ==> r == Err::<JsonValue, ConnectionError>(
                ConnectionError::ConnectionNotFound,
            ),
            connections@.contains_key(connection_id@) ==> {
                let d = connections@[connection_id@].data;
                if !d.is_object() {
                    r == Err::<JsonValue, ConnectionError>(ConnectionError::DataNotObject)
                } else {
                    match d.field(key@) {
                        Some(v) => r is Ok && r->Ok_0@ == v,
                        None => r == Err::<JsonValue, ConnectionError>(
                            ConnectionError::KeyNotFound,
                        ),
                    }
                }
            },
    {
        match connections.get(connection_id) {
            Some(c) => {
                match &c.data {
                    JsonValue::Object(_) => match c.data.get(key) {
                        Some(v) => Ok(v.duplicate()),
                        None => Err(ConnectionError::KeyNotFound),
                    },
                    _ => Err(ConnectionError::DataNotObject),
                }
            },
            None => Err(ConnectionError::ConnectionNotFound),
        }
    }

    /// Whether the member `key` of the data of the connection
    /// `connection_id`, a list of strings, holds `value`. False when there
    /// is no such connection, when its data is not an object or when the
    /// member is missing; an error when the member is not a list of strings.
    pub fn check_key_value_pair(
        connections: &ConnectionMap<M>,
        connection_id: &str,
        key: &str,
        value: &str,
    ) -> (r: Result<bool, ConnectionError>)
        requires
            connections.wf(),
        ensures
            r == if !connections@.contains_key(connection_id@) {
                Ok(false)
            } else {
                match connections@[connection_id@].data.field(key@) {
                    None => Ok(false),
                    Some(v) => match v.as_text_list() {
                        Some(list) => Ok(list.contains(value@)),
                        None => Err(ConnectionError::NotAStringList),
                    },
                }
            },
    {
        match connections.get(connection_id) {
            Some(c) => match c.data.get(key) {
                Some(data_value) => match data_value.to_text_list() {
                    Some(list) => {
                        let v = String::from_str(value);
                        Ok(contains_string(&list, &v))
                    },
                    None => Err(ConnectionError::NotAStringList),
                },
                None => Ok(false),
            },
            None => Ok(false),
        }
    }

    /// Whether the member `key` of the data of the connection
    /// `connection_id` is a string among `values`.
    pub fn check_if_any_kvp_matches(
        connections: &ConnectionMap<M>,
        connection_id: &str,
        key: &str,
        values: Vec<String>,
    ) -> (r: bool)
        requires
            connections.wf(),
        ensures
            r == (connections@.contains_key(connection_id@) && match connections@[connection_id@].data.field(key@) {
                Some(v) => match v.as_text() {
                    Some(t) => strings_view(values@).contains(t),
                    None => false,
                },
                None => false,
            }),
    {
        match connections.get(connection_id) {
            Some(c) => match c.data.get(key) {
                Some(data_value) => match data_value.as_str() {
                    Some(data_str) => contains_string(&values, data_str),
                    None => false,
                },
                None => false,
            },
            None => false,
        }
    }

    /// Subscribes the connection `connection_id` to `channel` (once).
    pub fn add_subscription(connections: &mut ConnectionMap<M>, connection_id: &str, channel: &str)
        requires
            old(connections).wf(),
        ensures
            final(connections).wf(),
            final(connections)@ == if old(connections)@.contains_key(connection_id@) {
                let c = old(connections)@[connection_id@];
                old(connections)@.insert(
                    connection_id@,
                    c.with_subscriptions(add_channel(c.subscriptions, channel@)),
                )
            } else {
                old(connections)@
            },
    {
        match connections.index_of(connection_id) {
            Some(i) => {
                let ghost s = connections.entries@;
                let mut e = connections.entries.remove(i);
                add_channel_to(&mut e.1.subscriptions, String::from_str(channel));
                connections.entries.insert(i, e);
                proof {
                    lemma_replace(s, i as int, e, connections.entries@);
                }
            },
            None => {},
        }
    }

    /// Unsubscribes the connection `connection_id` from `channel`.
    pub fn remove_subscription(connections: &mut ConnectionMap<M>, connection_id: &str, channel: &str)
        requires
            old(connections).wf(),
        ensures
            final(connections).wf(),
            final(connections)@ == if old(connections)@.contains_key(connection_id@) {
                let c = old(connections)@[connection_id@];
                old(connections)@.insert(
                    connection_id@,
                    c.with_subscriptions(remove_channel(c.subscriptions, channel@)),
                )
            } else {
                old(connections)@
            },
    {
        match connections.index_of(connection_id) {
            Some(i) => {
                let ghost s = connections.entries@;
                let mut e = connections.entries.remove(i);
                let ch = String::from_str(channel);
                remove_channel_from(&mut e.1.subscriptions, &ch);
                connections.entries.insert(i, e);
                proof {
                    lemma_replace(s, i as int, e, connections.entries@);
                }
            },
            None => {},
        }
    }

    /// Subscribes the connection `connection_id` to each of `channels`, in
    /// turn.
    pub fn add_multiple_subscriptions(
        connections: &mut ConnectionMap<M>,
        connection_id: &str,
        channels: Vec<String>,
    )
        requires
            old(connections).wf(),
        ensures
            final(connections).wf(),
            final(connections)@ == if old(connections)@.contains_key(connection_id@) {
                let c = old(connections)@[connection_id@];
                old(connections)@.insert(
                    connection_id@,
                    c.with_subscriptions(add_channels(c.subscriptions, strings_view(channels@))),
                )
            } else {
                old(connections)@
            },
    {
        match connections.index_of(connection_id) {
            Some(i) => {
                let ghost s = connections.entries@;
                let mut e = connections.entries.remove(i);
                let ghost start = strings_view(e.1.subscriptions@);
                let mut k: usize = 0;
                assert(strings_view(channels@).take(0) =~= Seq::<Seq<char>>::empty());
                while k < channels.len()
                    invariant
                        keys_distinct(s),
                        i < s.len(),
                        e.0@ == s[i as int].0@,
                        connections.entries@ == s.remove(i as int),
                        start == s[i as int].1@.subscriptions,
                        e.1@ == s[i as int].1@.with_subscriptions(strings_view(e.1.subscriptions@)),
                        k <= channels@.len(),
                        strings_view(e.1.subscriptions@) == add_channels(
                            start,
                            strings_view(channels@).take(k as int),
                        ),
                    decreases channels@.len() - k,
                {
                    proof {
                        let t = strings_view(channels@).take(k as int + 1);
                        assert(t.drop_last() =~= strings_view(channels@).take(k as int));
                    }
                    add_channel_to(&mut e.1.subscriptions, channels[k].clone());
                    k = k + 1;
                }
                assert(strings_view(channels@).take(channels@.len() as int) =~= strings_view(
                    channels@,
                ));
                connections.entries.insert(i, e);
                proof {
                    lemma_replace(s, i as int, e, connections.entries@);
                }
            },
            None => {},
        }
    }

    /// Unsubscribes the connection `connection_id` from each of `channels`,
    /// in turn.
    pub fn remove_multiple_subscriptions(
        connections: &mut ConnectionMap<M>,
        connection_id: &str,
        channels: Vec<String>,
    )
        requires
            old(connections).wf(),
        ensures
            final(connections).wf(),
            final(connections)@ == if old(connections)@.contains_key(connection_id@) {
                let c = old(connections)@[connection_id@];
                old(connections)@.insert(
                    connection_id@,
                    c.with_subscriptions(remove_channels(c.subscriptions, strings_view(channels@))),
                )
            } else {
                old(connections)@
            },
    {
        match connections.index_of(connection_id) {
            Some(i) => {
                let ghost s = connections.entries@;
                let mut e = connections.entries.remove(i);
                let ghost start = strings_view(e.1.subscriptions@);
                let mut k: usize = 0;
                assert(strings_view(channels@).take(0) =~= Seq::<Seq<char>>::empty());
                while k < channels.len()
                    invariant
                        keys_distinct(s),
                        i < s.len(),
                        e.0@ == s[i as int].0@,
                        connections.entries@ == s.remove(i as int),
                        start == s[i as int].1@.subscriptions,
                        e.1@ == s[i as int].1@.with_subscriptions(strings_view(e.1.subscriptions@)),
                        k <= channels@.len(),
                        strings_view(e.1.subscriptions@) == remove_channels(
                            start,
                            strings_view(channels@).take(k as int),
                        ),
                    decreases channels@.len() - k,
                {
                    proof {
                        let t = strings_view(channels@).take(k as int + 1);
                        assert(t.drop_last() =~= strings_view(channels@).take(k as int));
                    }
                    remove_channel_from(&mut e.1.subscriptions, &channels[k]);
                    k = k + 1;
                }
                assert(strings_view(channels@).take(channels@.len() as int) =~= strings_view(
                    channels@,
                ));
                connections.entries.insert(i, e);
                proof {
                    lemma_replace(s, i as int, e, connections.entries@);
                }
            },
            None => {},
        }
    }

    /// Sets the user of the connection `connection_id` and reports the
    /// connection as updated.
    pub fn update_user_id(
        connections: &mut ConnectionMap<M>,
        connection_id: &str,
        user_id: &str,
        server_id: String,
        server_session_id: String,
    ) -> (r: Result<ConnectionInfo, ConnectionError>)
        requires
            old(connections).wf(),
        ensures
            final(connections).wf(),
            !old(connections)@.contains_key(connection_id@) ==> final(connections)@ == old(
                connections,
            )@ && r is Err && r->Err_0 == ConnectionError::ConnectionNotFound,
            old(connections)@.contains_key(connection_id@) ==> {
                let c = old(connections)@[connection_id@].with_user_id(user_id@);
                &&& final(connections)@ == old(connections)@.insert(connection_id@, c)
                &&& r is Ok
                &&& reports(r->Ok_0, connection_id@, c, server_id@, server_session_id@)
            },
    {
        match connections.index_of(connection_id) {
            Some(i) => {
                let ghost s = connections.entries@;
                let mut e = connections.entries.remove(i);
                e.1.user_id = String::from_str(user_id);
                let info = e.1.to_connection_info(connection_id, server_id, server_session_id);
                connections.entries.insert(i, e);
                proof {
                    lemma_replace(s, i as int, e, connections.entries@);
                }
                Ok(info)
            },
            None => Err(ConnectionError::ConnectionNotFound),
        }
    }

    /// Marks the connection `connection_id` as authenticated or not.
    pub fn update_authenticated(
        connections: &mut ConnectionMap<M>,
        connection_id: &str,
        authenticated: bool,
    )
        requires
            old(connections).wf(),
        ensures
            final(connections).wf(),
            final(connections)@ == if old(connections)@.contains_key(connection_id@) {
                old(connections)@.insert(
                    connection_id@,
                    old(connections)@[connection_id@].with_authenticated(authenticated),
                )
            } else {
                old(connections)@
            },
    {
        match connections.index_of(connection_id) {
            Some(i) => {
                let ghost s = connections.entries@;
                let mut e = connections.entries.remove(i);
                e.1.authenticated = authenticated;
                connections.entries.insert(i, e);
                proof {
                    lemma_replace(s, i as int, e, connections.entries@);
                }
            },
            None => {},
        }
    }

    /// A copy of every connection.
    pub fn get_connections(connections: &ConnectionMap<M>) -> (r: ConnectionMap<M>)
        requires
            connections.wf(),
        ensures
            r.wf(),
            r@ == connections@,
            forall|k: Seq<char>| #[trigger] r@.contains_key(k) ==> r.sender_of(k) == connections.sender_of(k),
    {
        let mut out: Vec<(String, CnctdConnection<M>)> = Vec::new();
        let mut i: usize = 0;
        while i < connections.entries.len()
            invariant
                i <= connections.entries@.len(),
                out@.len() == i,
                forall|j: int|
                    0 <= j < i ==> (#[trigger] out@[j]).0@ == connections.entries@[j].0@ && out@[j].1@
                        == connections.entries@[j].1@ && out@[j].1.sender == connections.entries@[j].1.sender,
            decreases connections.entries@.len() - i,
        {
            let e = (connections.entries[i].0.clone(), connections.entries[i].1.duplicate());
            out.push(e);
            i = i + 1;
        }
        let r = ConnectionMap { entries: out };
        proof {
            let s = connections.entries@;
            assert(keys_distinct(out@)) by {
                assert forall|a: int, b: int|
                    0 <= a < out@.len() && 0 <= b < out@.len() && a != b implies (
                    #[trigger] out@[a]).0@ != (#[trigger] out@[b]).0@ by {
                    assert(s[a].0@ != s[b].0@);
                }
            }
            assert forall|k: Seq<char>| has_key(out@, k) <==> has_key(s, k) by {
                if has_key(out@, k) {
                    let j = choose|j: int| 0 <= j < out@.len() && (#[trigger] out@[j]).0@ == k;
                    assert(s[j].0@ == k);
                }
                if has_key(s, k) {
                    let j = choose|j: int| 0 <= j < s.len() && (#[trigger] s[j]).0@ == k;
                    assert(out@[j].0@ == k);
                }
            }
            assert forall|k: Seq<char>| #[trigger] r@.contains_key(k) implies r@[k] == connections@[k] by {
                let j = choose|j: int| 0 <= j < out@.len() && (#[trigger] out@[j]).0@ == k;
                lemma_map_of_at(out@, j);
                lemma_map_of_at(s, j);
            }
            assert(r@ =~= connections@);
            assert forall|k: Seq<char>| #[trigger] r@.contains_key(k) implies r.sender_of(k) == connections.sender_of(k) by {
                let j = choose|j: int| 0 <= j < out@.len() && (#[trigger] out@[j]).0@ == k;
                lemma_sender_at(out@, j);
                lemma_sender_at(s, j);
            }
        }
        r
    }

    /// The ids of the connections of the user `user_id`.
    pub fn get_connection_ids(connections: &ConnectionMap<M>, user_id: &str) -> (r: Vec<String>)
        requires
            connections.wf(),
        ensures
            strings_view(r@).no_duplicates(),
            forall|k: Seq<char>|
                #[trigger] strings_view(r@).contains(k) <==> (connections@.contains_key(k)
                    && connections@[k].user_id == user_id@),
    {
        let ghost pred = |c: ConnectionView| c.user_id == user_id@;
        let ghost s = connections.entries@;
        let u = String::from_str(user_id);
        let mut out: Vec<String> = Vec::new();
        let mut i: usize = 0;
        while i < connections.entries.len()
            invariant
                s == connections.entries@,
                keys_distinct(s),
                i <= s.len(),
                u@ == user_id@,
                pred == (|c: ConnectionView| c.user_id == user_id@),
                collected(s, pred, i as int, strings_view(out@)),
            decreases s.len() - i,
        {
            proof {
                lemma_collect_step(s, pred, i as int, strings_view(out@));
            }
            if connections.entries[i].1.user_id == u {
                let ghost before = strings_view(out@);
                out.push(connections.entries[i].0.clone());
                assert(strings_view(out@) =~= before.push(s[i as int].0@));
            }
            i = i + 1;
        }
        proof {
            lemma_collect_done(s, pred, strings_view(out@));
        }
        out
    }

    /// The ids of the connections subscribed to `channel`.
    pub fn get_subscriber_connection_ids(connections: &ConnectionMap<M>, channel: &str) -> (r: Vec<
        String,
    >)
        requires
            connections.wf(),
        ensures
            strings_view(r@).no_duplicates(),
            forall|k: Seq<char>|
                #[trigger] strings_view(r@).contains(k) <==> (connections@.contains_key(k)
                    && connections@[k].subscriptions.contains(channel@)),
    {
        let ghost pred = |c: ConnectionView| c.subscriptions.contains(channel@);
        let ghost s = connections.entries@;
        let ch = String::from_str(channel);
        let mut out: Vec<String> = Vec::new();
        let mut i: usize = 0;
        while i < connections.entries.len()
            invariant
                s == connections.entries@,
                keys_distinct(s),
                i <= s.len(),
                ch@ == channel@,
                pred == (|c: ConnectionView| c.subscriptions.contains(channel@)),
                collected(s, pred, i as int, strings_view(out@)),
            decreases s.len() - i,
        {
            proof {
                lemma_collect_step(s, pred, i as int, strings_view(out@));
            }
            if contains_string(&connections.entries[i].1.subscriptions, &ch) {
                let ghost before = strings_view(out@);
                out.push(connections.entries[i].0.clone());
                assert(strings_view(out@) =~= before.push(s[i as int].0@));
            }
            i = i + 1;
        }
        proof {
            lemma_collect_done(s, pred, strings_view(out@));
        }
        out
    }

    /// The ids of the connections whose data has the member `data_key` equal
    /// to the string `data_value`.
    pub fn get_key_value_owner_ids(connections: &ConnectionMap<M>, data_key: &str, data_value: &str) -> (r:
        Vec<String>)
        requires
            connections.wf(),
        ensures
            strings_view(r@).no_duplicates(),
            forall|k: Seq<char>|
                #[trigger] strings_view(r@).contains(k) <==> (connections@.contains_key(k)
                    && connections@[k].owns_key_value(data_key@, data_value@)),
            forall|k: Seq<char>|
                #[trigger] strings_view(r@).contains(k) <==> (connections@.contains_key(k)
                    && connections@[k].data.field(data_key@) == Some(JsonData::String(data_value@))),
    {
        let ghost pred = |c: ConnectionView| c.owns_key_value(data_key@, data_value@);
        let ghost s = connections.entries@;
        let dv = String::from_str(data_value);
        let mut out: Vec<String> = Vec::new();
        let mut i: usize = 0;
        while i < connections.entries.len()
            invariant
                s == connections.entries@,
                keys_distinct(s),
                i <= s.len(),
                dv@ == data_value@,
                pred == (|c: ConnectionView| c.owns_key_value(data_key@, data_value@)),
                collected(s, pred, i as int, strings_view(out@)),
            decreases s.len() - i,
        {
            proof {
                lemma_collect_step(s, pred, i as int, strings_view(out@));
            }
            let owns = match connections.entries[i].1.data.get(data_key) {
                Some(v) => match v.as_str() {
                    Some(t) => *t == dv,
                    None => false,
                },
                None => false,
            };
            if owns {
                let ghost before = strings_view(out@);
                out.push(connections.entries[i].0.clone());
                assert(strings_view(out@) =~= before.push(s[i as int].0@));
            }
            i = i + 1;
        }
        proof {
            lemma_collect_done(s, pred, strings_view(out@));
        }
        out
    }
}


/// The connection ids of a list of reports.
pub open spec fn info_ids(v: Seq<ConnectionInfo>) -> Seq<Seq<char>> {
    v.map_values(|i: ConnectionInfo| i.connection_id@)
}

/// The connection ids of a list of (id, format) pairs.
pub open spec fn pair_ids(v: Seq<(String, ConnectionFormat)>) -> Seq<Seq<char>> {
    v.map_values(|p: (String, ConnectionFormat)| p.0@)
}

impl<M> CnctdConnection<M> {
    /// A copy of the connection `connection_id`.
    pub fn get_connection(connections: &ConnectionMap<M>, connection_id: &str) -> (r: Result<
        CnctdConnection<M>,
        ConnectionError,
    >)
        requires
            connections.wf(),
        ensures
            match r {
                Ok(c) => connections@.contains_key(connection_id@) && c@
                    == connections@[connection_id@] && c.sender == connections.sender_of(connection_id@),
                Err(e) => !connections@.contains_key(connection_id@) && e
                    == ConnectionError::NoMatchingConnection,
            },
    {
        match connections.get(connection_id) {
            Some(c) => Ok(c.duplicate()),
            None => Err(ConnectionError::NoMatchingConnection),
        }
    }

    /// What is reported of the connection `connection_id`.
    pub fn get_connection_info(
        connections: &ConnectionMap<M>,
        connection_id: &str,
        server_id: String,
        server_session_id: String,
    ) -> (r: Result<ConnectionInfo, ConnectionError>)
        requires
            connections.wf(),
        ensures
            match r {
                Ok(info) => connections@.contains_key(connection_id@) && reports(
                    info,
                    connection_id@,
                    connections@[connection_id@],
                    server_id@,
                    server_session_id@,
                ),
                Err(e) => !connections@.contains_key(connection_id@) && e
                    == ConnectionError::NoMatchingConnection,
            },
    {
        let connection = Self::get_connection(connections, connection_id)?;
        Ok(connection.to_connection_info(connection_id, server_id, server_session_id))
    }

    /// What is reported of every connection, once each.
    pub fn get_connection_infos(
        connections: &ConnectionMap<M>,
        server_id: String,
        server_session_id: String,
    ) -> (r: Vec<ConnectionInfo>)
        requires
            connections.wf(),
        ensures
            info_ids(r@).no_duplicates(),
            forall|k: Seq<char>|
                #[trigger] info_ids(r@).contains(k)
                    <==> connections@.contains_key(k),
            forall|j: int|
                0 <= j < r@.len() ==> reports(
                    #[trigger] r@[j],
                    r@[j].connection_id@,
                    connections@[r@[j].connection_id@],
                    server_id@,
                    server_session_id@,
                ),
    {
        let ghost s = connections.entries@;
        let mut out: Vec<ConnectionInfo> = Vec::new();
        let mut i: usize = 0;
        while i < connections.entries.len()
            invariant
                s == connections.entries@,
                keys_distinct(s),
                i <= s.len(),
                out@.len() == i,
                forall|j: int|
                    0 <= j < i ==> reports(
                        #[trigger] out@[j],
                        s[j].0@,
                        s[j].1@,
                        server_id@,
                        server_session_id@,
                    ),
            decreases s.len() - i,
        {
            let info = connections.entries[i].1.to_connection_info(
                connections.entries[i].0.as_str(),
                server_id.clone(),
                server_session_id.clone(),
            );
            out.push(info);
            i = i + 1;
        }
        proof {
            let ids = info_ids(out@);
            assert forall|j: int| 0 <= j < ids.len() implies ids[j] == s[j].0@ by {
                assert(reports(out@[j], s[j].0@, s[j].1@, server_id@, server_session_id@));
            }
            assert forall|a: int, b: int|
                0 <= a < ids.len() && 0 <= b < ids.len() && a != b implies ids[a] != ids[b] by {
                assert(s[a].0@ != s[b].0@);
            }
            assert forall|k: Seq<char>| #[trigger] ids.contains(k) <==> connections@.contains_key(k) by {
                if ids.contains(k) {
                    let j = choose|j: int| 0 <= j < ids.len() && ids[j] == k;
                    lemma_map_of_at(s, j);
                }
                if connections@.contains_key(k) {
                    let j = choose|j: int| 0 <= j < s.len() && (#[trigger] s[j]).0@ == k;
                    assert(ids[j] == k);
                }
            }
            assert forall|j: int| 0 <= j < out@.len() implies reports(
                #[trigger] out@[j],
                out@[j].connection_id@,
                connections@[out@[j].connection_id@],
                server_id@,
                server_session_id@,
            ) by {
                assert(reports(out@[j], s[j].0@, s[j].1@, server_id@, server_session_id@));
                lemma_map_of_at(s, j);
            }
        }
        out
    }

    /// The id and wire format of each connection subscribed to `channel`,
    /// once each.
    pub fn get_subscriber_connections(connections: &ConnectionMap<M>, channel: &str) -> (r: Vec<
        (String, ConnectionFormat),
    >)
        requires
            connections.wf(),
        ensures
            pair_ids(r@).no_duplicates(),
            forall|k: Seq<char>|
                #[trigger] pair_ids(r@).contains(k) <==> (
                connections@.contains_key(k) && connections@[k].subscriptions.contains(channel@)),
            forall|j: int|
                0 <= j < r@.len() ==> (#[trigger] r@[j]).1 == connections@[r@[j].0@].format,
    {
        let ghost pred = |c: ConnectionView| c.subscriptions.contains(channel@);
        let ghost s = connections.entries@;
        let ch = String::from_str(channel);
        let mut out: Vec<(String, ConnectionFormat)> = Vec::new();
        let mut i: usize = 0;
        while i < connections.entries.len()
            invariant
                s == connections.entries@,
                keys_distinct(s),
                i <= s.len(),
                ch@ == channel@,
                pred == (|c: ConnectionView| c.subscriptions.contains(channel@)),
                collected(s, pred, i as int, pair_ids(out@)),
                forall|j: int|
                    0 <= j < out@.len() ==> exists|m: int|
                        0 <= m < i && #[trigger] s[m].0@ == (#[trigger] out@[j]).0@
                            && out@[j].1 == s[m].1@.format,
            decreases s.len() - i,
        {
            proof {
                lemma_collect_step(s, pred, i as int, pair_ids(out@));
            }
            if contains_string(&connections.entries[i].1.subscriptions, &ch) {
                let ghost before = pair_ids(out@);
                out.push((connections.entries[i].0.clone(), connections.entries[i].1.format));
                assert(pair_ids(out@) =~= before.push(
                    s[i as int].0@,
                ));
                assert(s[i as int].0@ == out@[out@.len() - 1].0@);
            }
            i = i + 1;
        }
        proof {
            lemma_collect_done(s, pred, pair_ids(out@));
            assert forall|j: int| 0 <= j < out@.len() implies (#[trigger] out@[j]).1
                == connections@[out@[j].0@].format by {
                let m = choose|m: int|
                    0 <= m < s.len() && #[trigger] s[m].0@ == (#[trigger] out@[j]).0@ && out@[j].1
                        == s[m].1@.format;
                lemma_map_of_at(s, m);
            }
        }
        out
    }
}


impl<M> CnctdConnection<M> {
    /// Attaches the sending half of an opened socket's channel to the
    /// connection `connection_id`. Returns false, changing nothing, when
    /// there is no such connection.
    pub fn set_sender(
        connections: &mut ConnectionMap<M>,
        connection_id: &str,
        sender: tokio::sync::mpsc::UnboundedSender<M>,
    ) -> (r: bool)
        requires
            old(connections).wf(),
        ensures
            final(connections).wf(),
            r == old(connections)@.contains_key(connection_id@),
            r ==> final(connections).sender_of(connection_id@) == Some(sender),
            final(connections)@ == if r {
                old(connections)@.insert(
                    connection_id@,
                    old(connections)@[connection_id@].with_connected(true),
                )
            } else {
                old(connections)@
            },
    {
        match connections.index_of(connection_id) {
            Some(i) => {
                let ghost s = connections.entries@;
                let mut e = connections.entries.remove(i);
                e.1.sender = Some(sender);
                connections.entries.insert(i, e);
                proof {
                    lemma_replace(s, i as int, e, connections.entries@);
                    lemma_sender_at(connections.entries@, i as int);
                }
                true
            },
            None => false,
        }
    }
}

/// Subscribing twice is subscribing once.
pub proof fn lemma_add_channel_idempotent(subs: Seq<Seq<char>>, channel: Seq<char>)
    ensures
        add_channel(add_channel(subs, channel), channel) == add_channel(subs, channel),
        add_channel(subs, channel).contains(channel),
{
    if !subs.contains(channel) {
        assert(subs.push(channel)[subs.len() as int] == channel);
    }
}

/// Unsubscribing undoes a subscription to a channel that was not there.
pub proof fn lemma_remove_channel_undoes_add(subs: Seq<Seq<char>>, channel: Seq<char>)
    requires
        !subs.contains(channel),
    ensures
        remove_channel(add_channel(subs, channel), channel) == subs,
    decreases subs.len(),
{
    if subs.len() == 0 {
        assert(subs.push(channel).drop_first() =~= subs);
    } else {
        assert(!subs.drop_first().contains(channel)) by {
            if subs.drop_first().contains(channel) {
                let i = choose|i: int| 0 <= i < subs.drop_first().len() && subs.drop_first()[i] == channel;
                assert(subs[i + 1] == channel);
            }
        }
        assert(subs[0] != channel);
        lemma_remove_channel_undoes_add(subs.drop_first(), channel);
        assert(subs.push(channel).drop_first() =~= subs.drop_first().push(channel));
        assert(seq![subs[0]] + subs.drop_first() =~= subs);
    }
}

/// Unsubscribing leaves no copy of a channel that occurred at most once.
pub proof fn lemma_remove_channel_removes(subs: Seq<Seq<char>>, channel: Seq<char>)
    requires
        subs.no_duplicates(),
    ensures
        !remove_channel(subs, channel).contains(channel),
        remove_channel(subs, channel).no_duplicates(),
    decreases subs.len(),
{
    if subs.len() > 0 {
        let rest = subs.drop_first();
        assert(rest.no_duplicates());
        lemma_remove_channel_removes(rest, channel);
        if subs[0] == channel {
            assert(!rest.contains(channel)) by {
                if rest.contains(channel) {
                    let i = choose|i: int| 0 <= i < rest.len() && rest[i] == channel;
                    assert(subs[i + 1] == subs[0]);
                }
            }
        } else {
            let r = remove_channel(rest, channel);
            lemma_remove_channel_sub(rest, channel);
            assert(!r.contains(subs[0])) by {
                if r.contains(subs[0]) {
                    let k = choose|k: int| 0 <= k < r.len() && r[k] == subs[0];
                    assert(rest.contains(r[k]));
                    let i = choose|i: int| 0 <= i < rest.len() && rest[i] == subs[0];
                    assert(subs[i + 1] == subs[0]);
                }
            }
            let t = seq![subs[0]] + r;
            assert forall|a: int, b: int| 0 <= a < t.len() && 0 <= b < t.len() && a != b implies t[a] != t[b] by {
                if a > 0 && b > 0 {
                    assert(t[a] == r[a - 1]);
                    assert(t[b] == r[b - 1]);
                } else if a == 0 {
                    assert(t[b] == r[b - 1]);
                    assert(r.contains(t[b]));
                } else {
                    assert(t[a] == r[a - 1]);
                    assert(r.contains(t[a]));
                }
            }
            assert(!t.contains(channel)) by {
                if t.contains(channel) {
                    let k = choose|k: int| 0 <= k < t.len() && t[k] == channel;
                    if k > 0 {
                        assert(r[k - 1] == channel);
                    }
                }
            }
        }
    }
}

proof fn lemma_remove_channel_sub(subs: Seq<Seq<char>>, channel: Seq<char>)
    ensures
        forall|x: Seq<char>| #[trigger] remove_channel(subs, channel).contains(x) ==> subs.contains(x),
    decreases subs.len(),
{
    if subs.len() > 0 {
        lemma_remove_channel_sub(subs.drop_first(), channel);
        let r = remove_channel(subs, channel);
        assert forall|x: Seq<char>| #[trigger] r.contains(x) implies subs.contains(x) by {
            let k = choose|k: int| 0 <= k < r.len() && r[k] == x;
            if subs[0] == channel {
                assert(subs[k + 1] == x);
            } else if k == 0 {
                assert(subs[0] == x);
            } else {
                let r2 = remove_channel(subs.drop_first(), channel);
                assert(r2[k - 1] == x);
                assert(r2.contains(x));
                let i = choose|i: int| 0 <= i < subs.drop_first().len() && subs.drop_first()[i] == x;
                assert(subs[i + 1] == x);
            }
        }
    }
}

/// Setting a member of an object connection's data and reading it back
/// gives the value set; the other members are unchanged.
pub proof fn lemma_data_field_round_trip(c: ConnectionView, key: Seq<char>, value: JsonData, other: Seq<char>)
    requires
        c.data.is_object(),
    ensures
        c.with_data(c.data.with_field(key, value)).data.field(key) == Some(value),
        other != key ==> c.with_data(c.data.with_field(key, value)).data.field(other) == c.data.field(other),
{
    crate::json::lemma_members_insert(c.data->Object_0, key, value, other);
}

/// Removing a member of an object connection's data leaves it missing; the
/// other members are unchanged.
pub proof fn lemma_data_field_removed(c: ConnectionView, key: Seq<char>, other: Seq<char>)
    requires
        c.data.is_object(),
    ensures
        c.with_data(c.data.without_field(key)).data.field(key) is None,
        other != key ==> c.with_data(c.data.without_field(key)).data.field(other) == c.data.field(other),
{
    crate::json::lemma_members_remove(c.data->Object_0, key, other);
}

/// `r` is `subs` followed by each channel of `channels` that is not in
/// `subs`, once, in the order of its first occurrence in `channels`.
pub open spec fn appends_new_in_order(subs: Seq<Seq<char>>, channels: Seq<Seq<char>>, r: Seq<Seq<char>>) -> bool {
    &&& r.no_duplicates()
    &&& subs.len() <= r.len()
    &&& r.take(subs.len() as int) == subs
    &&& forall|x: Seq<char>| #[trigger] r.contains(x) <==> (subs.contains(x) || channels.contains(x))
    &&& forall|i: int, j: int, b: int|
        #![trigger channels[b], r[j], r[i]]
        subs.len() <= i < j < r.len() && 0 <= b < channels.len() && channels[b] == r[j]
            ==> channels.take(b).contains(r[i])
}

/// Subscribing to several channels keeps the subscriptions there were, adds
/// each new channel once, in the order it first occurs, and leaves no
/// channel twice.
pub proof fn lemma_add_channels_appends_new(subs: Seq<Seq<char>>, channels: Seq<Seq<char>>)
    requires
        subs.no_duplicates(),
    ensures
        appends_new_in_order(subs, channels, add_channels(subs, channels)),
    decreases channels.len(),
{
    let r = add_channels(subs, channels);
    if channels.len() == 0 {
        assert(r == subs);
        assert(r.take(subs.len() as int) =~= subs);
        assert forall|x: Seq<char>| #[trigger] r.contains(x) <==> (subs.contains(x) || channels.contains(x)) by {
            if channels.contains(x) {
                let k = choose|k: int| 0 <= k < channels.len() && channels[k] == x;
            }
        }
    } else {
        let d = channels.drop_last();
        let c = channels.last();
        let r0 = add_channels(subs, d);
        lemma_add_channels_appends_new(subs, d);
        assert(channels[channels.len() - 1] == c);
        assert forall|x: Seq<char>| channels.contains(x) <==> (d.contains(x) || x == c) by {
            if channels.contains(x) {
                let k = choose|k: int| 0 <= k < channels.len() && channels[k] == x;
                if k < d.len() {
                    assert(d[k] == x);
                }
            }
            if d.contains(x) {
                let k = choose|k: int| 0 <= k < d.len() && d[k] == x;
                assert(channels[k] == x);
            }
        }
        // A new entry of r0 is a channel of d, not one of subs.
        assert forall|i: int| subs.len() <= i < r0.len() implies !subs.contains(#[trigger] r0[i])
            && d.contains(r0[i]) by {
            if subs.contains(r0[i]) {
                let k = choose|k: int| 0 <= k < subs.len() && subs[k] == r0[i];
                assert(r0.take(subs.len() as int)[k] == r0[k]);
                assert(r0[k] == r0[i]);
            }
            assert(r0.contains(r0[i]));
        }
        if r0.contains(c) {
            assert(r == r0);
            assert forall|i: int, j: int, b: int|
                #![trigger channels[b], r[j], r[i]]
                subs.len() <= i < j < r.len() && 0 <= b < channels.len() && channels[b] == r[j]
                    implies channels.take(b).contains(r[i]) by {
                if b < d.len() {
                    assert(d[b] == r0[j]);
                    let a = choose|a: int| 0 <= a < d.take(b).len() && d.take(b)[a] == r0[i];
                    assert(channels.take(b)[a] == r[i]);
                } else {
                    assert(d.contains(r0[i]));
                    let a = choose|a: int| 0 <= a < d.len() && d[a] == r0[i];
                    assert(channels.take(b)[a] == r[i]);
                }
            }
            assert forall|x: Seq<char>| #[trigger] r.contains(x) <==> (subs.contains(x) || channels.contains(x)) by {
                assert(r0.contains(x) <==> (subs.contains(x) || d.contains(x)));
            }
        } else {
            assert(r == r0.push(c));
            assert(!d.contains(c)) by {
                if d.contains(c) {
                    assert(r0.contains(c) <==> (subs.contains(c) || d.contains(c)));
                }
            }
            assert(r.no_duplicates()) by {
                assert forall|a: int, b: int| 0 <= a < r.len() && 0 <= b < r.len() && a != b implies r[a] != r[b] by {
                    if a < r0.len() && b < r0.len() {
                        assert(r[a] == r0[a] && r[b] == r0[b]);
                    } else if a < r0.len() {
                        assert(r0.contains(r0[a]));
                    } else {
                        assert(r0.contains(r0[b]));
                    }
                }
            }
            assert(r.take(subs.len() as int) =~= r0.take(subs.len() as int));
            assert forall|x: Seq<char>| #[trigger] r.contains(x) <==> (subs.contains(x) || channels.contains(x)) by {
                assert(r0.contains(x) <==> (subs.contains(x) || d.contains(x)));
                if r.contains(x) && x != c {
                    let k = choose|k: int| 0 <= k < r.len() && r[k] == x;
                    assert(r0[k] == x);
                }
                if r0.contains(x) {
                    let k = choose|k: int| 0 <= k < r0.len() && r0[k] == x;
                    assert(r[k] == x);
                }
                if x == c {
                    assert(r[r0.len() as int] == c);
                }
            }
            assert forall|i: int, j: int, b: int|
                #![trigger channels[b], r[j], r[i]]
                subs.len() <= i < j < r.len() && 0 <= b < channels.len() && channels[b] == r[j]
                    implies channels.take(b).contains(r[i]) by {
                assert(r[i] == r0[i]);
                if j < r0.len() {
                    assert(r[j] == r0[j]);
                    if b < d.len() {
                        assert(d[b] == r0[j]);
                        let a = choose|a: int| 0 <= a < d.take(b).len() && d.take(b)[a] == r0[i];
                        assert(channels.take(b)[a] == r[i]);
                    } else {
                        assert(r0.contains(r0[j]));
                    }
                } else {
                    if b < d.len() {
                        assert(d[b] == c);
                    }
                    assert(d.contains(r0[i]));
                    let a = choose|a: int| 0 <= a < d.len() && d[a] == r0[i];
                    assert(channels.take(b)[a] == r[i]);
                }
            }
        }
    }
}

/// A connection owns a key and value exactly when the member of its data
/// named by the key is the JSON string whose text is the value (no other
/// string, however alike, and no other kind of value).
pub proof fn lemma_owns_key_value_is_exact_string(c: ConnectionView, key: Seq<char>, value: Seq<char>)
    ensures
        c.owns_key_value(key, value) <==> c.data.field(key) == Some(JsonData::String(value)),
{
}

} // verus!
