//! Tags, and their encoding as extended-attribute keys and values.
use vstd::prelude::*;

use crate::error::{Error, KeyError};
use crate::number::{lemma_parse_render, parse_decimal, parse_spec, push_decimal, render_spec};

verus! {

/// The namespace that every tag attribute lives in: the user attribute class,
/// then this tool's own segment.
pub const WUTAG_NAMESPACE: &'static str = "user.wutag";

/// The first segment of a tag key.
pub open spec fn root_segment() -> Seq<char> {
    seq!['u', 's', 'e', 'r']
}

/// The second segment of a tag key.
pub open spec fn tool_segment() -> Seq<char> {
    seq!['w', 'u', 't', 'a', 'g']
}

/// The two namespace segments, joined by a dot.
pub open spec fn namespace_key() -> Seq<char> {
    root_segment() + seq!['.'] + tool_segment()
}

/// What every tag key begins with: the namespace and the dot before the timestamp.
pub open spec fn key_prefix() -> Seq<char> {
    namespace_key() + seq!['.']
}

/// Whether a key's first two segments are the tag namespace.
pub open spec fn in_namespace(k: Seq<char>) -> bool {
    k == namespace_key() || key_prefix().is_prefix_of(k)
}

/// The key under which a tag created at `timestamp` is stored.
pub open spec fn key_of(timestamp: int) -> Seq<char> {
    key_prefix() + render_spec(timestamp)
}

/// The timestamp that a stored key carries, or the first thing wrong with it.
pub open spec fn decode_key(k: Seq<char>) -> Result<int, KeyError> {
    if k.len() == 0 {
        Err(KeyError::MissingNamespace)
    } else if !(k == root_segment() || (root_segment() + seq!['.']).is_prefix_of(k)) {
        Err(KeyError::InvalidNamespace)
    } else if k == root_segment() {
        Err(KeyError::MissingToolNamespace)
    } else if !in_namespace(k) {
        Err(KeyError::InvalidToolNamespace)
    } else if k == namespace_key() {
        Err(KeyError::MissingTimestamp)
    } else {
        match parse_spec(k.skip(key_prefix().len() as int)) {
            Some(t) => Ok(t),
            None => Err(KeyError::InvalidTimestamp),
        }
    }
}

/// A tag: a name, and the second at which it was created.
///
/// Two tags are equal when their names are; the timestamp is carried along.
#[derive(Debug, Clone)]
pub struct Tag {
    name: String,
    timestamp: i64,
}

impl View for Tag {
    type V = (Seq<char>, i64);

    closed spec fn view(&self) -> (Seq<char>, i64) {
        (self.name@, self.timestamp)
    }
}

impl PartialEq for Tag {
    fn eq(&self, other: &Tag) -> (r: bool)
        ensures
            r == (self@.0 == other@.0),
    {
        self.name == other.name
    }
}

impl vstd::std_specs::cmp::PartialEqSpecImpl for Tag {
    open spec fn obeys_eq_spec() -> bool {
        true
    }

    open spec fn eq_spec(&self, other: &Tag) -> bool {
        self@.0 == other@.0
    }
}

impl Eq for Tag {}

/// Relies on chrono's `Utc::now` and `DateTime::timestamp`: the current time, as
/// whole seconds since the epoch, which is never before the epoch (`now` measures
/// the duration since it).
#[verifier::external_body]
fn now_seconds() -> (r: i64)
    ensures
        r >= 0,
{
    chrono::Utc::now().timestamp()
}

/// Whether `s` begins with `p`.
pub fn starts_with(s: &str, p: &str) -> (r: bool)
    ensures
        r == p@.is_prefix_of(s@),
{
    let n = s.unicode_len();
    let m = p.unicode_len();
    if m > n {
        return false;
    }
    let mut i: usize = 0;
    while i < m
        invariant
            i <= m <= n,
            n == s@.len(),
            m == p@.len(),
            forall|j: int| 0 <= j < i ==> s@[j] == p@[j],
        decreases m - i,
    {
        if s.get_char(i) != p.get_char(i) {
            return false;
        }
        i = i + 1;
    }
    true
}

/// Whether `s` and `p` hold the same characters.
pub(crate) fn same_text(s: &str, p: &str) -> (r: bool)
    ensures
        r == (s@ == p@),
{
    let r = s.unicode_len() == p.unicode_len() && starts_with(s, p);
    proof {
        if r {
            assert(s@ =~= p@);
        }
    }
    r
}

/// Whether `key` is in the tag namespace.
pub fn key_in_namespace(key: &str) -> (r: bool)
    ensures
        r == in_namespace(key@),
{
    proof {
        reveal_strlit("user.wutag");
        reveal_strlit("user.wutag.");
        assert("user.wutag"@ =~= namespace_key());
        assert("user.wutag."@ =~= key_prefix());
    }
    same_text(key, "user.wutag") || starts_with(key, "user.wutag.")
}

/// Reads the timestamp out of a stored attribute key.
pub fn decode_key_exec(key: &str) -> (r: Result<i64, KeyError>)
    ensures
        match r {
            Ok(t) => decode_key(key@) == Ok::<int, KeyError>(t as int),
            Err(e) => decode_key(key@) == Err::<int, KeyError>(e),
        },
{
    proof {
        reveal_strlit("user");
        reveal_strlit("user.");
        reveal_strlit("user.wutag");
        reveal_strlit("user.wutag.");
        assert("user"@ =~= root_segment());
        assert("user."@ =~= root_segment() + seq!['.']);
        assert("user.wutag"@ =~= namespace_key());
        assert("user.wutag."@ =~= key_prefix());
    }
    let len = key.unicode_len();
    if len == 0 {
        return Err(KeyError::MissingNamespace);
    }
    let is_root = same_text(key, "user");
    if !(is_root || starts_with(key, "user.")) {
        return Err(KeyError::InvalidNamespace);
    }
    if is_root {
        return Err(KeyError::MissingToolNamespace);
    }
    let is_ns = same_text(key, "user.wutag");
    if !(is_ns || starts_with(key, "user.wutag.")) {
        return Err(KeyError::InvalidToolNamespace);
    }
    if is_ns {
        return Err(KeyError::MissingTimestamp);
    }
    let rest = key.substring_char(11, len);
    assert(rest@ =~= key@.skip(key_prefix().len() as int));
    match parse_decimal(rest) {
        Some(t) => Ok(t),
        None => Err(KeyError::InvalidTimestamp),
    }
}

impl Tag {
    /// A tag named `name`, created now.
    pub fn new(name: String) -> (r: Tag)
        ensures
            r@.0 == name@,
            r@.1 >= 0,
    {
        Tag { name, timestamp: now_seconds() }
    }

    /// A tag named `name`, created at `timestamp` seconds since the epoch.
    pub fn with_timestamp(name: String, timestamp: i64) -> (r: Tag)
        ensures
            r@ == (name@, timestamp),
    {
        Tag { name, timestamp }
    }

    /// A copy of the tag.
    pub fn clone_tag(&self) -> (r: Tag)
        ensures
            r@ == self@,
    {
        Tag { name: self.name.clone(), timestamp: self.timestamp }
    }

    /// The name of the tag.
    pub fn name(&self) -> (r: &str)
        ensures
            r@ == self@.0,
    {
        self.name.as_str()
    }

    /// The name of the tag, as an owned string.
    pub fn name_string(&self) -> (r: String)
        ensures
            r@ == self@.0,
    {
        self.name.clone()
    }

    /// When the tag was created, in seconds since the epoch.
    pub fn timestamp(&self) -> (r: i64)
        ensures
            r == self@.1,
    {
        self.timestamp
    }

    /// The attribute key under which this tag is stored.
    pub fn xattr_name(&self) -> (r: String)
        ensures
            r@ == key_of(self@.1 as int),
    {
        proof {
            reveal_strlit("user.wutag.");
            assert("user.wutag."@ =~= key_prefix());
        }
        let mut key = String::from_str("user.wutag.");
        push_decimal(self.timestamp, &mut key);
        key
    }

    /// The attribute key and value that store this tag.
    pub fn encode(&self) -> (r: (String, String))
        ensures
            r.0@ == key_of(self@.1 as int),
            r.1@ == self@.0,
    {
        (self.xattr_name(), self.name.clone())
    }

    /// Reads a stored attribute back as a tag: the key gives the timestamp, the
    /// value is the name.
    pub fn decode(key: &str, value: &str) -> (r: Result<Tag, Error>)
        ensures
            match decode_key(key@) {
                Ok(t) => r matches Ok(tag) && tag@.0 == value@ && tag@.1 as int == t,
                Err(e) => r == Err::<Tag, Error>(Error::InvalidTagKey(e)),
            },
    {
        match decode_key_exec(key) {
            Ok(t) => Ok(Tag { name: String::from_str(value), timestamp: t }),
            Err(e) => Err(Error::InvalidTagKey(e)),
        }
    }
}

/// The key of a tag created at `timestamp` decodes to that timestamp; with the
/// value, which is the name itself, decoding the encoding of a tag gives the tag back.
pub proof fn lemma_round_trip(timestamp: i64)
    ensures
        decode_key(key_of(timestamp as int)) == Ok::<int, KeyError>(timestamp as int),
{
    let k = key_of(timestamp as int);
    let r = render_spec(timestamp as int);
    lemma_parse_render(timestamp);
    assert(k.skip(key_prefix().len() as int) =~= r);
    assert(key_prefix().is_prefix_of(k));
    assert((root_segment() + seq!['.']).is_prefix_of(k)) by {
        assert forall|i: int| 0 <= i < 5 implies k[i] == (root_segment() + seq!['.'])[i] by {
            assert(k[i] == key_prefix()[i]);
        }
    }
    assert(k.len() > namespace_key().len());
    assert(k != root_segment());
    assert(k != namespace_key());
}

/// Every key that decodes lies in the tag namespace.
pub proof fn lemma_decoded_in_namespace(k: Seq<char>)
    requires
        decode_key(k) is Ok,
    ensures
        in_namespace(k),
{
}

} // verus!
