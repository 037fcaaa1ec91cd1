//! The datagram key-value protocol: a packet holding `=` is an insert whose
//! key is everything before the first `=` and whose value is everything after
//! it; the exact packet `version` asks for the version string; any other
//! packet queries a key. Later inserts win; a missing key reads as empty.
use vstd::prelude::*;
use vstd::string::StrSliceExecFns;
use vstd::string::StringExecFns;

verus! {

pub enum Request {
    Insert { key: String, value: String },
    Query(String),
    Version,
}

/// Does the packet contain a key-value separator?
pub open spec fn has_eq(s: Seq<char>) -> bool {
    exists|i: int| 0 <= i < s.len() && s[i] == '='
}

/// The position of the first separator.
pub open spec fn first_eq(s: Seq<char>) -> int
    decreases s.len(),
{
    if s.len() == 0 {
        0
    } else if s[0] == '=' {
        0
    } else {
        1 + first_eq(s.drop_first())
    }
}

proof fn lemma_first_eq_at(s: Seq<char>, i: int)
    requires
        0 <= i < s.len(),
        s[i] == '=',
        forall|j: int| 0 <= j < i ==> s[j] != '=',
    ensures
        first_eq(s) == i,
    decreases i,
{
    if i == 0 {
    } else {
        let t = s.drop_first();
        assert(forall|j: int| 0 <= j < t.len() ==> t[j] == s[j + 1]);
        lemma_first_eq_at(t, i - 1);
    }
}

/// Decodes one packet into a request.
pub fn parse_message(message: &String) -> (r: Request)
    ensures
        has_eq(message@) ==> (r matches Request::Insert { key, value } && key@ == message@.take(
            first_eq(message@),
        ) && value@ == message@.skip(first_eq(message@) + 1)),
        !has_eq(message@) && message@ == "version"@ ==> r is Version,
        !has_eq(message@) && message@ != "version"@ ==> (r matches Request::Query(k) && k@
            == message@),
{
    let s = message.as_str();
    let n = s.unicode_len();
    let mut i: usize = 0;
    while i < n && s.get_char(i) != '='
        invariant
            n == s@.len(),
            0 <= i <= n,
            forall|j: int| 0 <= j < i ==> s@[j] != '=',
        decreases n - i,
    {
        i = i + 1;
    }
    if i < n {
        proof {
            lemma_first_eq_at(message@, i as int);
        }
        let key = String::from_str(s.substring_char(0, i));
        let value = String::from_str(s.substring_char(i + 1, n));
        proof {
            assert(s@.subrange(0, i as int) =~= message@.take(i as int));
            assert(s@.subrange(i + 1, n as int) =~= message@.skip(i + 1));
        }
        Request::Insert { key, value }
    } else {
        let ver = String::from_str("version");
        if *message == ver {
            Request::Version
        } else {
            Request::Query(message.clone())
        }
    }
}

/// The stored bindings, keyed by the key's characters.
pub open spec fn kv_has(s: Seq<(Seq<char>, Seq<char>)>, key: Seq<char>) -> bool {
    exists|i: int| 0 <= i < s.len() && (#[trigger] s[i]).0 == key
}

pub open spec fn kv_index_of(s: Seq<(Seq<char>, Seq<char>)>, key: Seq<char>) -> int {
    choose|i: int| 0 <= i < s.len() && (#[trigger] s[i]).0 == key
}

/// The value bound to a key; a missing key reads as the empty value.
pub open spec fn kv_value_of(s: Seq<(Seq<char>, Seq<char>)>, key: Seq<char>) -> Seq<char> {
    if kv_has(s, key) {
        s[kv_index_of(s, key)].1
    } else {
        Seq::empty()
    }
}

/// A last-write-wins store of string bindings.
pub struct KvStore {
    entries: Vec<(String, String)>,
}

impl View for KvStore {
    type V = Seq<(Seq<char>, Seq<char>)>;

    closed spec fn view(&self) -> Seq<(Seq<char>, Seq<char>)> {
        Seq::new(self.entries@.len(), |i: int| (self.entries@[i].0@, self.entries@[i].1@))
    }
}

impl KvStore {
    /// Keys are unique.
    pub open spec fn wf(&self) -> bool {
        forall|i: int, j: int|
            0 <= i < j < self@.len() ==> (#[trigger] self@[i]).0 != (#[trigger] self@[j]).0
    }

    pub fn new() -> (s: KvStore)
        ensures
            s@ =~= Seq::<(Seq<char>, Seq<char>)>::empty(),
            s.wf(),
    {
        KvStore { entries: Vec::new() }
    }

    fn find_index(&self, key: &String) -> (r: Option<usize>)
        ensures
            match r {
                Some(i) => 0 <= i < self@.len() && self@[i as int].0 == key@,
                None => !kv_has(self@, key@),
            },
    {
        let mut i: usize = 0;
        while i < self.entries.len()
            invariant
                0 <= i <= self@.len(),
                self@.len() == self.entries@.len(),
                forall|j: int| 0 <= j < i ==> (#[trigger] self@[j]).0 != key@,
            decreases self@.len() - i,
        {
            if self.entries[i].0 == *key {
                return Some(i);
            }
            i = i + 1;
        }
        None
    }

    /// Binds a value to a key; a later insert for the same key wins.
    pub fn insert(&mut self, key: String, value: String)
        requires
            old(self).wf(),
        ensures
            final(self).wf(),
            kv_has(old(self)@, key@) ==> final(self)@ =~= old(self)@.update(
                kv_index_of(old(self)@, key@),
                (key@, value@),
            ),
            !kv_has(old(self)@, key@) ==> final(self)@ =~= old(self)@.push((key@, value@)),
    {
        let found = self.find_index(&key);
        match found {
            Some(i) => {
                proof {
                    let oi = kv_index_of(old(self)@, key@);
                    assert(old(self)@[oi].0 == key@);
                    assert(oi == i as int);
                }
                self.entries[i] = (key, value);
                proof {
                    assert(self@ =~= old(self)@.update(i as int, (key@, value@)));
                    assert forall|p: int, q: int| 0 <= p < q < self@.len() implies (
                    #[trigger] self@[p]).0 != (#[trigger] self@[q]).0 by {
                        assert(old(self)@[p].0 != old(self)@[q].0);
                    }
                }
            },
            None => {
                self.entries.push((key, value));
                proof {
                    assert(self@ =~= old(self)@.push((key@, value@)));
                    assert forall|p: int, q: int| 0 <= p < q < self@.len() implies (
                    #[trigger] self@[p]).0 != (#[trigger] self@[q]).0 by {
                        if q < self@.len() - 1 {
                            assert(old(self)@[p].0 != old(self)@[q].0);
                        } else {
                            assert(old(self)@[p].0 != key@);
                        }
                    }
                }
            },
        }
    }

    /// The value bound to a key, if the key is present.
    pub fn get(&self, key: &String) -> (r: Option<String>)
        requires
            self.wf(),
        ensures
            match r {
                Some(v) => kv_has(self@, key@) && v@ == kv_value_of(self@, key@),
                None => !kv_has(self@, key@),
            },
    {
        let found = self.find_index(key);
        match found {
            Some(i) => {
                proof {
                    let oi = kv_index_of(self@, key@);
                    assert(self@[oi].0 == key@);
                    assert(oi == i as int);
                }
                Some(self.entries[i].1.clone())
            },
            None => None,
        }
    }
}

/// The reply to a query: the key, the separator, and the bound value.
pub fn format_query_response(key: &str, value: &str) -> (r: String)
    ensures
        r@ == key@ + "="@ + value@,
{
    let mut out = String::from_str(key);
    out.append("=");
    out.append(value);
    out
}

/// The fixed version string.
pub open spec fn version_line() -> Seq<char> {
    "version=Ken's Key-Value Store 1.0"@
}

pub fn format_version_response() -> (r: String)
    ensures
        r@ == version_line(),
{
    String::from_str("version=Ken's Key-Value Store 1.0")
}

/// Dispatches one request against the store: an insert binds and answers
/// nothing; a query answers `key=value` with the value bound at call time, or
/// an empty value; a version request answers the version string.
pub fn apply_request(store: &mut KvStore, req: Request) -> (r: Option<String>)
    requires
        old(store).wf(),
    ensures
        final(store).wf(),
        match req {
            Request::Insert { key, value } => {
                &&& r is None
                &&& (kv_has(old(store)@, key@) ==> final(store)@ =~= old(store)@.update(
                    kv_index_of(old(store)@, key@),
                    (key@, value@),
                ))
                &&& (!kv_has(old(store)@, key@) ==> final(store)@ =~= old(store)@.push(
                    (key@, value@),
                ))
            },
            Request::Query(key) => {
                &&& final(store)@ == old(store)@
                &&& (r matches Some(resp) && resp@ == key@ + "="@ + kv_value_of(
                    old(store)@,
                    key@,
                ))
            },
            Request::Version => {
                &&& final(store)@ == old(store)@
                &&& (r matches Some(resp) && resp@ == version_line())
            },
        },
{
    match req {
        Request::Insert { key, value } => {
            store.insert(key, value);
            None
        },
        Request::Query(key) => {
            let value = match store.get(&key) {
                Some(v) => v,
                None => String::new(),
            };
            Some(format_query_response(key.as_str(), value.as_str()))
        },
        Request::Version => Some(format_version_response()),
    }
}

} // verus!
