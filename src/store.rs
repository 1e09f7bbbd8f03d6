//! Tag operations on the extended attributes of one file.
//!
//! Each operation takes the file's attributes as listed by the platform, as
//! `(key, value)` pairs in listing order, and returns what to show, write or remove.
use vstd::prelude::*;

use crate::error::Error;
use crate::order::{lemma_lt_irreflexive, lemma_lt_total, lemma_lt_transitive, name_less, name_lt};
use crate::tag::{decode_key, in_namespace, key_in_namespace, key_of, lemma_decoded_in_namespace, lemma_round_trip, Tag};

verus! {

/// An attribute listing, as keys and values of characters.
pub open spec fn attrs_view(a: Seq<(String, String)>) -> Seq<(Seq<char>, Seq<char>)> {
    a.map_values(|p: (String, String)| (p.0@, p.1@))
}

/// The tags that a listing holds, in listing order: each attribute whose key
/// decodes, as its value (the name) and its key's timestamp. Other attributes
/// are passed over.
pub open spec fn decoded_tags(a: Seq<(Seq<char>, Seq<char>)>) -> Seq<(Seq<char>, i64)>
    decreases a.len(),
{
    if a.len() == 0 {
        Seq::empty()
    } else {
        let rest = decoded_tags(a.drop_last());
        match decode_key(a.last().0) {
            Ok(t) => rest.push((a.last().1, t as i64)),
            Err(_) => rest,
        }
    }
}

/// The names of a sequence of tags.
pub open spec fn names(d: Seq<(Seq<char>, i64)>) -> Set<Seq<char>> {
    d.map_values(|t: (Seq<char>, i64)| t.0).to_set()
}

/// Whether a tag named `name` is among the tags of a listing.
pub open spec fn has_tag(a: Seq<(Seq<char>, Seq<char>)>, name: Seq<char>) -> bool {
    exists|i: int| 0 <= i < decoded_tags(a).len() && (#[trigger] decoded_tags(a)[i]).0 == name
}

/// For each name among the tags, the timestamp of the last tag of that name.
pub open spec fn last_by_name(d: Seq<(Seq<char>, i64)>) -> Map<Seq<char>, i64>
    decreases d.len(),
{
    if d.len() == 0 {
        Map::empty()
    } else {
        last_by_name(d.drop_last()).insert(d.last().0, d.last().1)
    }
}

/// The keys of the namespace in a listing, in listing order.
pub open spec fn namespaced_keys(a: Seq<(Seq<char>, Seq<char>)>) -> Seq<Seq<char>>
    decreases a.len(),
{
    if a.len() == 0 {
        Seq::empty()
    } else if in_namespace(a.last().0) {
        namespaced_keys(a.drop_last()).push(a.last().0)
    } else {
        namespaced_keys(a.drop_last())
    }
}

/// Whether the attribute at `i` is one that removing a tag named `name` may take:
/// its key is in the namespace and its value is the name.
pub open spec fn removable(a: Seq<(Seq<char>, Seq<char>)>, name: Seq<char>, i: int) -> bool {
    in_namespace(a[i].0) && a[i].1 == name
}

/// Whether tags are strictly ordered by name.
pub open spec fn sorted_by_name(s: Seq<(Seq<char>, i64)>) -> bool {
    forall|i: int, j: int| 0 <= i < j < s.len() ==> name_lt(#[trigger] s[i].0, #[trigger] s[j].0)
}

/// Whether `r` lists the tags `d` ordered by name, one for each name, each with
/// the timestamp of the last tag of its name in `d`.
pub open spec fn sorted_listing(r: Seq<(Seq<char>, i64)>, d: Seq<(Seq<char>, i64)>) -> bool {
    &&& sorted_by_name(r)
    &&& forall|i: int| 0 <= i < r.len() ==> #[trigger] last_by_name(d).contains_key(r[i].0)
        && last_by_name(d)[r[i].0] == r[i].1
    &&& names(r) == names(d)
}

/// The views of a sequence of tags.
pub open spec fn tags_view(s: Seq<Tag>) -> Seq<(Seq<char>, i64)> {
    s.map_values(|t: Tag| t@)
}

/// Pushing onto a sequence adds the element to its set.
proof fn lemma_set_push<A>(s: Seq<A>, x: A)
    ensures
        s.push(x).to_set() == s.to_set().insert(x),
{
    assert forall|y: A| #[trigger] s.push(x).to_set().contains(y) <==> s.to_set().insert(x).contains(y) by {
        if s.push(x).contains(y) {
            let i = choose|i: int| 0 <= i < s.push(x).len() && s.push(x)[i] == y;
            if i < s.len() {
                assert(s[i] == y);
            }
        }
        if s.contains(y) {
            let i = choose|i: int| 0 <= i < s.len() && s[i] == y;
            assert(s.push(x)[i] == y);
        }
        if y == x {
            assert(s.push(x)[s.len() as int] == y);
        }
    }
    assert(s.push(x).to_set() =~= s.to_set().insert(x));
}

/// Inserting into a sequence adds the element to its set.
proof fn lemma_set_insert<A>(s: Seq<A>, p: int, x: A)
    requires
        0 <= p <= s.len(),
    ensures
        s.insert(p, x).to_set() == s.to_set().insert(x),
{
    let t = s.insert(p, x);
    assert forall|y: A| #[trigger] t.to_set().contains(y) <==> s.to_set().insert(x).contains(y) by {
        if t.contains(y) {
            let i = choose|i: int| 0 <= i < t.len() && t[i] == y;
            if i < p {
                assert(s[i] == y);
            } else if i > p {
                assert(s[i - 1] == y);
            }
        }
        if s.contains(y) {
            let i = choose|i: int| 0 <= i < s.len() && s[i] == y;
            if i < p {
                assert(t[i] == y);
            } else {
                assert(t[i + 1] == y);
            }
        }
        if y == x {
            assert(t[p] == y);
        }
    }
    assert(t.to_set() =~= s.to_set().insert(x));
}

/// Lists the tags of a file, in listing order; attributes outside the namespace,
/// and those whose key does not decode, are passed over.
pub fn list_tags(attrs: &Vec<(String, String)>) -> (r: Vec<Tag>)
    ensures
        tags_view(r@) == decoded_tags(attrs_view(attrs@)),
{
    let mut tags: Vec<Tag> = Vec::new();
    let n = attrs.len();
    let mut i: usize = 0;
    while i < n
        invariant
            i <= n,
            n == attrs@.len(),
            tags_view(tags@) == decoded_tags(attrs_view(attrs@).take(i as int)),
        decreases n - i,
    {
        let ghost a = attrs_view(attrs@);
        let (key, value) = &attrs[i];
        let item = Tag::decode(key.as_str(), value.as_str());
        proof {
            assert(a.take(i + 1).drop_last() =~= a.take(i as int));
            assert(a.take(i + 1).last() == a[i as int]);
        }
        match item {
            Ok(tag) => {
                tags.push(tag);
                assert(tags_view(tags@) =~= decoded_tags(a.take(i + 1)));
            },
            Err(_) => {},
        }
        i = i + 1;
    }
    assert(attrs_view(attrs@).take(n as int) =~= attrs_view(attrs@));
    tags
}

/// Lists the tags of a file ordered by name, one for each name: where several
/// tags share a name, the last one listed stands.
pub fn list_tags_btree(attrs: &Vec<(String, String)>) -> (r: Vec<Tag>)
    ensures
        sorted_listing(tags_view(r@), decoded_tags(attrs_view(attrs@))),
{
    let all = list_tags(attrs);
    let ghost d = tags_view(all@);
    let mut out: Vec<Tag> = Vec::new();
    let n = all.len();
    let mut k: usize = 0;
    while k < n
        invariant
            k <= n,
            n == all@.len(),
            d == tags_view(all@),
            sorted_by_name(tags_view(out@)),
            forall|i: int| 0 <= i < out@.len() ==> #[trigger] last_by_name(d.take(k as int)).contains_key(out@[i]@.0)
                && last_by_name(d.take(k as int))[out@[i]@.0] == out@[i]@.1,
            names(tags_view(out@)) == names(d.take(k as int)),
        decreases n - k,
    {
        let tag = all[k].clone_tag();
        let ghost x = tag@;
        let ghost old_out = tags_view(out@);
        let ghost m = last_by_name(d.take(k as int));
        assert forall|i: int| 0 <= i < old_out.len() implies m.contains_key(#[trigger] old_out[i].0)
            && m[old_out[i].0] == old_out[i].1 by {
            assert(old_out[i] == out@[i]@);
        }
        let m_len = out.len();
        let mut p: usize = 0;
        while p < m_len && name_less(out[p].name(), tag.name())
            invariant
                p <= m_len,
                m_len == out@.len(),
                x == tag@,
                forall|j: int| 0 <= j < p ==> name_lt(#[trigger] out@[j]@.0, x.0),
            decreases m_len - p,
        {
            p = p + 1;
        }
        proof {
            assert(d.take(k + 1).drop_last() =~= d.take(k as int));
            assert(d.take(k + 1).last() == x);
            if p < m_len {
                lemma_lt_total(out@[p as int]@.0, x.0);
            }
        }
        let same = p < m_len && out[p].eq(&tag);
        if same {
            out.set(p, tag);
            proof {
                let s = tags_view(out@);
                assert(s =~= old_out.update(p as int, x));
                assert forall|i: int| 0 <= i < s.len() implies #[trigger] s[i].0 == old_out[i].0 by {}
                assert(sorted_by_name(s)) by {
                    assert forall|i: int, j: int| 0 <= i < j < s.len() implies name_lt(#[trigger] s[i].0, #[trigger] s[j].0) by {
                        assert(s[i].0 == old_out[i].0 && s[j].0 == old_out[j].0);
                    }
                }
                assert forall|i: int| 0 <= i < out@.len() && i != p implies out@[i]@.0 != x.0 by {
                    if i < p {
                        assert(name_lt(old_out[i].0, old_out[p as int].0));
                        lemma_lt_irreflexive(x.0);
                    } else {
                        assert(name_lt(old_out[p as int].0, old_out[i].0));
                        lemma_lt_irreflexive(x.0);
                    }
                }
                assert(last_by_name(d.take(k + 1)) == m.insert(x.0, x.1));
                assert forall|i: int| 0 <= i < out@.len() implies #[trigger] last_by_name(d.take(k + 1)).contains_key(out@[i]@.0)
                    && last_by_name(d.take(k + 1))[out@[i]@.0] == out@[i]@.1 by {
                    assert(out@[i]@ == s[i]);
                    if i != p {
                        assert(s[i] == old_out[i]);
                        assert(out@[i]@.0 != x.0);
                    }
                }
                assert(old_out.map_values(|t: (Seq<char>, i64)| t.0) =~= s.map_values(|t: (Seq<char>, i64)| t.0));
                assert(names(s) == names(d.take(k + 1))) by {
                    assert(d.take(k + 1).map_values(|t: (Seq<char>, i64)| t.0) =~= d.take(k as int).map_values(|t: (Seq<char>, i64)| t.0).push(x.0));
                    lemma_set_push(d.take(k as int).map_values(|t: (Seq<char>, i64)| t.0), x.0);
                    assert(names(old_out).contains(x.0)) by {
                        assert(old_out.map_values(|t: (Seq<char>, i64)| t.0)[p as int] == x.0);
                    }
                    assert(names(old_out).insert(x.0) =~= names(old_out));
                }
            }
        } else {
            out.insert(p, tag);
            proof {
                let s = tags_view(out@);
                assert(s =~= old_out.insert(p as int, x));
                if p < m_len {
                    assert(name_lt(x.0, old_out[p as int].0));
                }
                assert forall|i: int, j: int| 0 <= i < j < s.len() implies name_lt(#[trigger] s[i].0, #[trigger] s[j].0) by {
                    if j < p {
                        assert(s[i] == old_out[i] && s[j] == old_out[j]);
                    } else if j == p {
                        assert(s[i] == old_out[i]);
                    } else if i == p {
                        assert(s[j] == old_out[j - 1]);
                        if j - 1 > p {
                            assert(name_lt(old_out[p as int].0, old_out[j - 1].0));
                            lemma_lt_transitive(x.0, old_out[p as int].0, old_out[j - 1].0);
                        }
                    } else if i < p {
                        assert(s[i] == old_out[i] && s[j] == old_out[j - 1]);
                    } else {
                        assert(s[i] == old_out[i - 1] && s[j] == old_out[j - 1]);
                    }
                }
                assert forall|i: int| 0 <= i < old_out.len() implies old_out[i].0 != x.0 by {
                    lemma_lt_irreflexive(x.0);
                    if i < p {
                    } else {
                        if i > p {
                            assert(name_lt(old_out[p as int].0, old_out[i].0));
                            lemma_lt_transitive(x.0, old_out[p as int].0, old_out[i].0);
                        }
                    }
                }
                assert forall|i: int| 0 <= i < out@.len() implies #[trigger] last_by_name(d.take(k + 1)).contains_key(out@[i]@.0)
                    && last_by_name(d.take(k + 1))[out@[i]@.0] == out@[i]@.1 by {
                    assert(out@[i]@ == s[i]);
                    assert(last_by_name(d.take(k + 1)) == m.insert(x.0, x.1));
                    if i < p {
                        assert(s[i] == old_out[i]);
                        assert(old_out[i].0 != x.0);
                    } else if i > p {
                        assert(s[i] == old_out[i - 1]);
                        assert(old_out[i - 1].0 != x.0);
                    }
                }
                assert(names(s) =~= names(d.take(k + 1))) by {
                    assert(d.take(k + 1).map_values(|t: (Seq<char>, i64)| t.0) =~= d.take(k as int).map_values(|t: (Seq<char>, i64)| t.0).push(x.0));
                    assert(s.map_values(|t: (Seq<char>, i64)| t.0) =~= old_out.map_values(|t: (Seq<char>, i64)| t.0).insert(p as int, x.0));
                    lemma_set_push(d.take(k as int).map_values(|t: (Seq<char>, i64)| t.0), x.0);
                    lemma_set_insert(old_out.map_values(|t: (Seq<char>, i64)| t.0), p as int, x.0);
                }
            }
        }
        k = k + 1;
        assert forall|i: int| 0 <= i < out@.len() implies #[trigger] last_by_name(d.take(k as int)).contains_key(out@[i]@.0)
            && last_by_name(d.take(k as int))[out@[i]@.0] == out@[i]@.1 by {
            assert(last_by_name(d.take(k as int)).contains_key(out@[i]@.0));
        }
    }
    assert(d.take(n as int) =~= d);
    assert forall|i: int| 0 <= i < tags_view(out@).len() implies #[trigger] last_by_name(d).contains_key(tags_view(out@)[i].0)
        && last_by_name(d)[tags_view(out@)[i].0] == tags_view(out@)[i].1 by {
        assert(tags_view(out@)[i] == out@[i]@);
    }
    out
}

/// Whether a file has any tags.
pub fn has_tags(attrs: &Vec<(String, String)>) -> (r: bool)
    ensures
        r == (decoded_tags(attrs_view(attrs@)).len() > 0),
{
    list_tags(attrs).len() > 0
}

/// The keys to remove to clear every tag of a file: all keys in the namespace,
/// in listing order, whether or not they decode.
pub fn clear_tags(attrs: &Vec<(String, String)>) -> (r: Vec<String>)
    ensures
        r@.map_values(|k: String| k@) == namespaced_keys(attrs_view(attrs@)),
{
    let mut keys: Vec<String> = Vec::new();
    let n = attrs.len();
    let mut i: usize = 0;
    while i < n
        invariant
            i <= n,
            n == attrs@.len(),
            keys@.map_values(|k: String| k@) == namespaced_keys(attrs_view(attrs@).take(i as int)),
        decreases n - i,
    {
        let ghost a = attrs_view(attrs@);
        let key = &attrs[i].0;
        proof {
            assert(a.take(i + 1).drop_last() =~= a.take(i as int));
            assert(a.take(i + 1).last() == a[i as int]);
        }
        if key_in_namespace(key.as_str()) {
            keys.push(key.clone());
            assert(keys@.map_values(|k: String| k@) =~= namespaced_keys(a.take(i + 1)));
        }
        i = i + 1;
    }
    assert(attrs_view(attrs@).take(n as int) =~= attrs_view(attrs@));
    keys
}

impl Tag {
    /// Decides how to attach this tag to a file: the attribute to write, or
    /// `TagExists` when a tag of the same name is already there.
    pub fn save_to(&self, attrs: &Vec<(String, String)>) -> (r: Result<(String, String), Error>)
        ensures
            match r {
                Ok(kv) => !has_tag(attrs_view(attrs@), self@.0) && kv.0@ == key_of(self@.1 as int)
                    && kv.1@ == self@.0,
                Err(e) => has_tag(attrs_view(attrs@), self@.0) && e == Error::TagExists,
            },
    {
        let tags = list_tags(attrs);
        let ghost d = decoded_tags(attrs_view(attrs@));
        let n = tags.len();
        let mut i: usize = 0;
        while i < n
            invariant
                i <= n,
                n == tags@.len(),
                tags_view(tags@) == d,
                d == decoded_tags(attrs_view(attrs@)),
                forall|j: int| 0 <= j < i ==> (#[trigger] d[j]).0 != self@.0,
            decreases n - i,
        {
            if tags[i].eq(self) {
                assert(d[i as int] == tags@[i as int]@);
                assert(has_tag(attrs_view(attrs@), self@.0)) by {
                    assert((decoded_tags(attrs_view(attrs@))[i as int]).0 == self@.0);
                }
                return Err(Error::TagExists);
            }
            assert(d[i as int] == tags@[i as int]@);
            i = i + 1;
        }
        Ok(self.encode())
    }

    /// Decides how to detach this tag from a file: the key of the first attribute
    /// in the namespace whose value is the tag's name, or `TagNotFound`.
    pub fn remove_from(&self, attrs: &Vec<(String, String)>) -> (r: Result<String, Error>)
        ensures
            match r {
                Ok(k) => exists|i: int| 0 <= i < attrs@.len() && removable(attrs_view(attrs@), self@.0, i)
                    && (forall|j: int| 0 <= j < i ==> !removable(attrs_view(attrs@), self@.0, j))
                    && k@ == attrs_view(attrs@)[i].0,
                Err(e) => e == Error::TagNotFound && forall|i: int| 0 <= i < attrs@.len()
                    ==> !removable(attrs_view(attrs@), self@.0, i),
            },
    {
        let ghost a = attrs_view(attrs@);
        let n = attrs.len();
        let mut i: usize = 0;
        while i < n
            invariant
                i <= n,
                n == attrs@.len(),
                a == attrs_view(attrs@),
                forall|j: int| 0 <= j < i ==> !removable(a, self@.0, j),
            decreases n - i,
        {
            let (key, value) = &attrs[i];
            assert(a[i as int] == (key@, value@));
            if *value == self.name_string() && key_in_namespace(key.as_str()) {
                assert(removable(attrs_view(attrs@), self@.0, i as int));
                return Ok(key.clone());
            }
            i = i + 1;
        }
        Err(Error::TagNotFound)
    }
}

/// A listing after the platform wrote `v` under key `k`: the attribute of that
/// key takes the new value, or a new attribute is added at the end.
pub open spec fn set_attr(
    a: Seq<(Seq<char>, Seq<char>)>,
    k: Seq<char>,
    v: Seq<char>,
) -> Seq<(Seq<char>, Seq<char>)> {
    if exists|i: int| 0 <= i < a.len() && (#[trigger] a[i]).0 == k {
        a.map_values(|p: (Seq<char>, Seq<char>)| if p.0 == k { (k, v) } else { p })
    } else {
        a.push((k, v))
    }
}

/// A listing after the platform removed each of the keys `ks`.
pub open spec fn remove_keys(
    a: Seq<(Seq<char>, Seq<char>)>,
    ks: Seq<Seq<char>>,
) -> Seq<(Seq<char>, Seq<char>)> {
    a.filter(key_not_in(ks))
}

/// Whether an attribute's key is none of `ks`.
pub open spec fn key_not_in(ks: Seq<Seq<char>>) -> spec_fn((Seq<char>, Seq<char>)) -> bool {
    |p: (Seq<char>, Seq<char>)| !ks.contains(p.0)
}

/// The attributes of a listing that lie in the tag namespace.
pub open spec fn namespaced(a: Seq<(Seq<char>, Seq<char>)>) -> Seq<(Seq<char>, Seq<char>)> {
    a.filter(|p: (Seq<char>, Seq<char>)| in_namespace(p.0))
}

/// An attribute whose key decodes stands among the tags.
proof fn lemma_decoded_has(a: Seq<(Seq<char>, Seq<char>)>, i: int)
    requires
        0 <= i < a.len(),
        decode_key(a[i].0) is Ok,
    ensures
        has_tag(a, a[i].1),
    decreases a.len(),
{
    let d = decoded_tags(a);
    if i == a.len() - 1 {
        assert(d[d.len() - 1].0 == a[i].1);
    } else {
        lemma_decoded_has(a.drop_last(), i);
        let d0 = decoded_tags(a.drop_last());
        let j = choose|j: int| 0 <= j < d0.len() && (#[trigger] d0[j]).0 == a[i].1;
        assert(d[j] == d0[j]);
    }
}

/// Once a tag has been attached to a file, a tag of the same name is there: so
/// attaching that name a second time, with no detach between, is refused with
/// `TagExists`, and the refused call writes nothing.
pub proof fn lemma_attach_twice(a: Seq<(Seq<char>, Seq<char>)>, name: Seq<char>, timestamp: i64)
    ensures
        has_tag(set_attr(a, key_of(timestamp as int), name), name),
{
    let k = key_of(timestamp as int);
    let b = set_attr(a, k, name);
    lemma_round_trip(timestamp);
    if exists|i: int| 0 <= i < a.len() && (#[trigger] a[i]).0 == k {
        let i = choose|i: int| 0 <= i < a.len() && (#[trigger] a[i]).0 == k;
        assert(b[i] == (k, name));
        lemma_decoded_has(b, i);
    } else {
        assert(b[a.len() as int] == (k, name));
        lemma_decoded_has(b, a.len() as int);
    }
}

/// Attributes outside the tag namespace take no part in listing or clearing:
/// the listing with them left out gives the same tags and the same keys to clear.
/// (Detaching only ever takes a `removable` attribute, which is in the namespace.)
pub proof fn lemma_namespace_isolation(a: Seq<(Seq<char>, Seq<char>)>)
    ensures
        decoded_tags(a) == decoded_tags(namespaced(a)),
        namespaced_keys(a) == namespaced_keys(namespaced(a)),
        forall|name: Seq<char>, i: int| 0 <= i < a.len() && #[trigger] removable(a, name, i) ==> in_namespace(a[i].0),
    decreases a.len(),
{
    reveal(Seq::filter);
    if a.len() > 0 {
        lemma_namespace_isolation(a.drop_last());
        let f = namespaced(a);
        let f0 = namespaced(a.drop_last());
        if in_namespace(a.last().0) {
            assert(f.drop_last() =~= f0);
        } else {
            assert(f =~= f0);
            if decode_key(a.last().0) is Ok {
                lemma_decoded_in_namespace(a.last().0);
            }
        }
    }
}

/// A key of the namespace in a listing is among the keys that clearing removes.
proof fn lemma_namespaced_keys_has(a: Seq<(Seq<char>, Seq<char>)>, i: int)
    requires
        0 <= i < a.len(),
        in_namespace(a[i].0),
    ensures
        namespaced_keys(a).contains(a[i].0),
    decreases a.len(),
{
    let ks = namespaced_keys(a);
    if i == a.len() - 1 {
        assert(ks[ks.len() - 1] == a[i].0);
    } else {
        lemma_namespaced_keys_has(a.drop_last(), i);
        let ks0 = namespaced_keys(a.drop_last());
        let j = choose|j: int| 0 <= j < ks0.len() && ks0[j] == a[i].0;
        assert(ks[j] == ks0[j]);
    }
}

/// A listing with no key in the namespace has no tags and nothing to clear.
proof fn lemma_outside_namespace_empty(a: Seq<(Seq<char>, Seq<char>)>)
    requires
        forall|i: int| 0 <= i < a.len() ==> !in_namespace(#[trigger] a[i].0),
    ensures
        decoded_tags(a).len() == 0,
        namespaced_keys(a).len() == 0,
    decreases a.len(),
{
    if a.len() > 0 {
        lemma_outside_namespace_empty(a.drop_last());
        assert(!in_namespace(a[a.len() - 1].0));
        if decode_key(a.last().0) is Ok {
            lemma_decoded_in_namespace(a.last().0);
        }
    }
}

/// Each element of a filtered sequence is an element of the sequence, and passes the filter.
proof fn lemma_filter_from<A>(s: Seq<A>, pred: spec_fn(A) -> bool, i: int)
    requires
        0 <= i < s.filter(pred).len(),
    ensures
        s.contains(s.filter(pred)[i]),
        pred(s.filter(pred)[i]),
    decreases s.len(),
{
    reveal(Seq::filter);
    let f0 = s.drop_last().filter(pred);
    if i < f0.len() {
        lemma_filter_from(s.drop_last(), pred, i);
        let j = choose|j: int| 0 <= j < s.drop_last().len() && s.drop_last()[j] == f0[i];
        assert(s[j] == f0[i]);
    } else {
        assert(s[s.len() - 1] == s.filter(pred)[i]);
    }
}

/// After the keys that clearing names are removed, the file has no tags, and
/// clearing again names no key: a second clear does nothing and does not fail.
pub proof fn lemma_clear_idempotent(a: Seq<(Seq<char>, Seq<char>)>)
    ensures
        decoded_tags(remove_keys(a, namespaced_keys(a))).len() == 0,
        namespaced_keys(remove_keys(a, namespaced_keys(a))).len() == 0,
{
    let ks = namespaced_keys(a);
    let pred = key_not_in(ks);
    let b = remove_keys(a, ks);
    assert forall|i: int| 0 <= i < b.len() implies !in_namespace(#[trigger] b[i].0) by {
        lemma_filter_from(a, pred, i);
        let j = choose|j: int| 0 <= j < a.len() && a[j] == b[i];
        if in_namespace(b[i].0) {
            lemma_namespaced_keys_has(a, j);
        }
    }
    lemma_outside_namespace_empty(b);
}

/// Whether one of the tags `d` is named `y`.
proof fn lemma_names_contains(d: Seq<(Seq<char>, i64)>, y: Seq<char>)
    ensures
        names(d).contains(y) <==> exists|i: int| 0 <= i < d.len() && (#[trigger] d[i]).0 == y,
{
    let f = |t: (Seq<char>, i64)| t.0;
    if names(d).contains(y) {
        let i = choose|i: int| 0 <= i < d.map_values(f).len() && d.map_values(f)[i] == y;
        assert(d[i].0 == y);
    }
    if exists|i: int| 0 <= i < d.len() && (#[trigger] d[i]).0 == y {
        let i = choose|i: int| 0 <= i < d.len() && (#[trigger] d[i]).0 == y;
        assert(d.map_values(f)[i] == y);
    }
}

/// Two sequences of tags, each ordered strictly by name, with the same names and
/// the same timestamp for each name, are the same sequence.
proof fn lemma_sorted_unique(s: Seq<(Seq<char>, i64)>, t: Seq<(Seq<char>, i64)>, m: Map<Seq<char>, i64>)
    requires
        sorted_by_name(s),
        sorted_by_name(t),
        names(s) == names(t),
        forall|i: int| 0 <= i < s.len() ==> m.contains_key(#[trigger] s[i].0) && m[s[i].0] == s[i].1,
        forall|i: int| 0 <= i < t.len() ==> m.contains_key(#[trigger] t[i].0) && m[t[i].0] == t[i].1,
    ensures
        s == t,
    decreases s.len(),
{
    if s.len() == 0 {
        if t.len() > 0 {
            lemma_names_contains(t, t[0].0);
            lemma_names_contains(s, t[0].0);
        }
        assert(s =~= t);
        return;
    }
    lemma_names_contains(s, s[0].0);
    lemma_names_contains(t, s[0].0);
    assert(t.len() > 0);
    lemma_names_contains(t, t[0].0);
    lemma_names_contains(s, t[0].0);
    let j = choose|j: int| 0 <= j < t.len() && (#[trigger] t[j]).0 == s[0].0;
    let k = choose|k: int| 0 <= k < s.len() && (#[trigger] s[k]).0 == t[0].0;
    if s[0].0 != t[0].0 {
        assert(j > 0 && k > 0);
        assert(name_lt(t[0].0, t[j].0));
        assert(name_lt(s[0].0, s[k].0));
        lemma_lt_transitive(s[0].0, t[0].0, s[0].0);
        lemma_lt_irreflexive(s[0].0);
    }
    let s1 = s.skip(1);
    let t1 = t.skip(1);
    assert forall|y: Seq<char>| #[trigger] names(s1).contains(y) <==> names(t1).contains(y) by {
        lemma_names_contains(s1, y);
        lemma_names_contains(t1, y);
        lemma_names_contains(s, y);
        lemma_names_contains(t, y);
        if names(s1).contains(y) {
            let a = choose|a: int| 0 <= a < s1.len() && (#[trigger] s1[a]).0 == y;
            assert(s[a + 1].0 == y);
            assert(names(t).contains(y));
            let b = choose|b: int| 0 <= b < t.len() && (#[trigger] t[b]).0 == y;
            if b == 0 {
                assert(name_lt(s[0].0, s[a + 1].0));
                lemma_lt_irreflexive(y);
            }
            assert(t1[b - 1].0 == y);
        }
        if names(t1).contains(y) {
            let a = choose|a: int| 0 <= a < t1.len() && (#[trigger] t1[a]).0 == y;
            assert(t[a + 1].0 == y);
            assert(names(s).contains(y));
            let b = choose|b: int| 0 <= b < s.len() && (#[trigger] s[b]).0 == y;
            if b == 0 {
                assert(name_lt(t[0].0, t[a + 1].0));
                lemma_lt_irreflexive(y);
            }
            assert(s1[b - 1].0 == y);
        }
    }
    assert(names(s1) =~= names(t1));
    assert forall|i: int| 0 <= i < s1.len() implies m.contains_key(#[trigger] s1[i].0) && m[s1[i].0] == s1[i].1 by {
        assert(s1[i] == s[i + 1]);
    }
    assert forall|i: int| 0 <= i < t1.len() implies m.contains_key(#[trigger] t1[i].0) && m[t1[i].0] == t1[i].1 by {
        assert(t1[i] == t[i + 1]);
    }
    lemma_sorted_unique(s1, t1, m);
    assert(s[0] == t[0]);
    assert(s =~= t) by {
        assert forall|i: int| 0 <= i < s.len() implies s[i] == t[i] by {
            if i > 0 {
                assert(s[i] == s1[i - 1]);
                assert(t[i] == t1[i - 1]);
            }
        }
    }
}

/// An attribute outside the tag namespace takes no part in listing: removing it
/// from a listing leaves the tags unchanged.
pub proof fn lemma_foreign_attribute_ignored(a: Seq<(Seq<char>, Seq<char>)>, i: int)
    requires
        0 <= i < a.len(),
        !in_namespace(a[i].0),
    ensures
        decoded_tags(a.remove(i)) == decoded_tags(a),
    decreases a.len(),
{
    if decode_key(a[i].0) is Ok {
        lemma_decoded_in_namespace(a[i].0);
    }
    if i == a.len() - 1 {
        assert(a.remove(i) =~= a.drop_last());
    } else {
        lemma_foreign_attribute_ignored(a.drop_last(), i);
        let b = a.remove(i);
        assert(b.drop_last() =~= a.drop_last().remove(i));
        assert(b.last() == a.last());
    }
}

/// The sorted listing of a file is the same with or without an attribute outside
/// the tag namespace: such an attribute never contributes a tag.
pub proof fn lemma_sorted_listing_ignores_foreign(
    a: Seq<(Seq<char>, Seq<char>)>,
    i: int,
    with: Seq<(Seq<char>, i64)>,
    without: Seq<(Seq<char>, i64)>,
)
    requires
        0 <= i < a.len(),
        !in_namespace(a[i].0),
        sorted_listing(with, decoded_tags(a)),
        sorted_listing(without, decoded_tags(a.remove(i))),
    ensures
        with == without,
{
    lemma_foreign_attribute_ignored(a, i);
    lemma_sorted_unique(with, without, last_by_name(decoded_tags(a)));
}

} // verus!
