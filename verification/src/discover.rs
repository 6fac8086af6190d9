//! DNS-SD browse results for `_ngmt._udp`: how browse events update the cache
//! of resolved services, and how the cache is listed and searched.
//!
//! Services are keyed by their full name, lowercased. The cache keeps them in
//! the byte order of that key, so a listing is sorted and each key occurs once.
use vstd::prelude::*;
use vstd::utf8::{encode_utf8, encode_utf8_decode_utf8, is_ascii_chars};

use crate::text::{
    ascii_lowercase, bytes_lt, opt_view, first_field, first_label, lemma_bytes_lt_irreflexive,
    lemma_bytes_lt_total, lemma_bytes_lt_transitive, str_less, str_lt, strip_trailing,
    to_ascii_lowercase, to_lowercase, trim, trim_end_char, unicode_lowercase, trim_white_space,
};

verus! {

/// The DNS-SD service type browsed for.
pub open spec fn service_type() -> Seq<char> {
    "_ngmt._udp.local."@
}

/// The DNS-SD service type browsed for.
pub fn ngmt_service_type() -> (s: &'static str)
    ensures
        s@ == service_type(),
{
    "_ngmt._udp.local."
}

/// One resolved service.
#[derive(Debug)]
pub struct DiscoveredEntry {
    /// Full DNS-SD name, lowercased: the cache key.
    pub fullname: String,
    /// First label of the full name as announced.
    pub instance_name: String,
    /// Target host, without trailing dots.
    pub host: String,
    pub port: u16,
    /// TXT `role`, trimmed and lowercased; empty when absent or blank.
    pub role: String,
}

/// What an entry holds, as text.
pub struct EntryView {
    pub fullname: Seq<char>,
    pub instance_name: Seq<char>,
    pub host: Seq<char>,
    pub port: u16,
    pub role: Seq<char>,
}

impl View for DiscoveredEntry {
    type V = EntryView;

    open spec fn view(&self) -> EntryView {
        EntryView {
            fullname: self.fullname@,
            instance_name: self.instance_name@,
            host: self.host@,
            port: self.port,
            role: self.role@,
        }
    }
}

/// A browse event, with what the logic reads of it.
pub enum DiscoveryEvent {
    /// A service was resolved; `role` is the raw TXT `role` value, if present.
    ServiceResolved { fullname: String, hostname: String, port: u16, role: Option<String> },
    /// A service went away.
    ServiceRemoved { fullname: String },
    /// Search started or stopped, or a service was found but not yet resolved.
    Other,
}

/// The role of a TXT `role` value: absent, or blank after trimming, gives none;
/// otherwise the trimmed value with ASCII letters lowered.
pub open spec fn txt_role(raw: Option<Seq<char>>) -> Option<Seq<char>> {
    match raw {
        None => None,
        Some(v) => if trim_white_space(v).len() == 0 {
            None
        } else {
            Some(ascii_lowercase(trim_white_space(v)))
        },
    }
}

/// The entry that a resolved service gives.
pub open spec fn resolved_entry(
    fullname: Seq<char>,
    hostname: Seq<char>,
    port: u16,
    role: Option<Seq<char>>,
) -> EntryView {
    EntryView {
        fullname: unicode_lowercase(fullname),
        instance_name: first_label(fullname, '.'),
        host: strip_trailing(hostname, '.'),
        port,
        role: match txt_role(role) {
            Some(r) => r,
            None => Seq::empty(),
        },
    }
}

/// The cache after an event: a resolved service replaces whatever was held
/// under its lowercased full name, a removed one is dropped, others change nothing.
pub open spec fn apply_event_spec(m: Map<Seq<char>, EntryView>, ev: DiscoveryEvent) -> Map<
    Seq<char>,
    EntryView,
> {
    match ev {
        DiscoveryEvent::ServiceResolved { fullname, hostname, port, role } => {
            let e = resolved_entry(fullname@, hostname@, port, opt_view(role));
            m.insert(e.fullname, e)
        },
        DiscoveryEvent::ServiceRemoved { fullname } => m.remove(unicode_lowercase(fullname@)),
        DiscoveryEvent::Other => m,
    }
}

/// Entries in strictly increasing byte order of their full names.
pub open spec fn entries_sorted(s: Seq<EntryView>) -> bool {
    forall|i: int, j: int|
        0 <= i < j < s.len() ==> bytes_lt(
            encode_utf8(#[trigger] s[i].fullname),
            encode_utf8(#[trigger] s[j].fullname),
        )
}

/// Whether some entry of `s` has full name `k`.
pub open spec fn has_name(s: Seq<EntryView>, k: Seq<char>) -> bool {
    exists|i: int| 0 <= i < s.len() && #[trigger] s[i].fullname == k
}

/// The entries of `s` keyed by full name.
pub open spec fn entries_map(s: Seq<EntryView>) -> Map<Seq<char>, EntryView> {
    Map::new(
        |k: Seq<char>| has_name(s, k),
        |k: Seq<char>| s[choose|i: int| 0 <= i < s.len() && #[trigger] s[i].fullname == k],
    )
}

pub open spec fn views(s: Seq<DiscoveredEntry>) -> Seq<EntryView> {
    s.map_values(|e: DiscoveredEntry| e@)
}

proof fn lemma_names_unique(s: Seq<EntryView>, i: int, j: int)
    requires
        entries_sorted(s),
        0 <= i < s.len(),
        0 <= j < s.len(),
        s[i].fullname == s[j].fullname,
    ensures
        i == j,
{
    if i < j {
        lemma_bytes_lt_irreflexive(encode_utf8(s[i].fullname));
    } else if j < i {
        lemma_bytes_lt_irreflexive(encode_utf8(s[i].fullname));
    }
}

proof fn lemma_map_at(s: Seq<EntryView>, i: int)
    requires
        entries_sorted(s),
        0 <= i < s.len(),
    ensures
        entries_map(s).contains_key(s[i].fullname),
        entries_map(s)[s[i].fullname] == s[i],
{
    let k = s[i].fullname;
    assert(has_name(s, k));
    let j = choose|j: int| 0 <= j < s.len() && #[trigger] s[j].fullname == k;
    lemma_names_unique(s, i, j);
}

/// Equal byte encodings come from equal text.
proof fn lemma_utf8_injective(a: Seq<char>, b: Seq<char>)
    requires
        encode_utf8(a) == encode_utf8(b),
    ensures
        a == b,
{
    encode_utf8_decode_utf8(a);
    encode_utf8_decode_utf8(b);
}

/// A sorted listing holds as many entries as its map has names.
proof fn lemma_map_len(s: Seq<EntryView>)
    requires
        entries_sorted(s),
    ensures
        entries_map(s).dom().finite(),
        entries_map(s).len() == s.len(),
{
    let names = s.map_values(|e: EntryView| e.fullname);
    assert(names.no_duplicates()) by {
        assert forall|i: int, j: int|
            0 <= i < names.len() && 0 <= j < names.len() && i != j implies names[i] != names[j] by {
            if names[i] == names[j] {
                lemma_names_unique(s, i, j);
            }
        }
    }
    names.unique_seq_to_set();
    assert(entries_map(s).dom() =~= names.to_set()) by {
        assert forall|k: Seq<char>| entries_map(s).dom().contains(k) <==> names.to_set().contains(
            k,
        ) by {
            if has_name(s, k) {
                let i = choose|i: int| 0 <= i < s.len() && #[trigger] s[i].fullname == k;
                assert(names[i] == k);
            }
            if names.contains(k) {
                let i = choose|i: int| 0 <= i < names.len() && names[i] == k;
                assert(s[i].fullname == k);
            }
        }
    }
}

proof fn lemma_map_insert(s: Seq<EntryView>, p: int, e: EntryView)
    requires
        entries_sorted(s),
        entries_sorted(s.insert(p, e)),
        0 <= p <= s.len(),
        !has_name(s, e.fullname),
    ensures
        entries_map(s.insert(p, e)) == entries_map(s).insert(e.fullname, e),
{
    let s2 = s.insert(p, e);
    let m1 = entries_map(s);
    let m2 = entries_map(s2);
    let m3 = m1.insert(e.fullname, e);
    assert forall|k: Seq<char>| m2.contains_key(k) <==> m3.contains_key(k) by {
        if has_name(s2, k) {
            let i = choose|i: int| 0 <= i < s2.len() && #[trigger] s2[i].fullname == k;
            if i < p {
                assert(s[i].fullname == k);
            } else if i > p {
                assert(s[i - 1].fullname == k);
            }
        }
        if has_name(s, k) {
            let i = choose|i: int| 0 <= i < s.len() && #[trigger] s[i].fullname == k;
            if i < p {
                assert(s2[i].fullname == k);
            } else {
                assert(s2[i + 1].fullname == k);
            }
        }
        if k == e.fullname {
            assert(s2[p].fullname == k);
        }
    }
    assert forall|k: Seq<char>| m2.contains_key(k) implies m2[k] == m3[k] by {
        let i = choose|i: int| 0 <= i < s2.len() && #[trigger] s2[i].fullname == k;
        lemma_map_at(s2, i);
        if i < p {
            lemma_map_at(s, i);
        } else if i > p {
            lemma_map_at(s, i - 1);
        }
    }
    assert(m2 =~= m3);
}

proof fn lemma_map_update(s: Seq<EntryView>, p: int, e: EntryView)
    requires
        entries_sorted(s),
        0 <= p < s.len(),
        s[p].fullname == e.fullname,
    ensures
        entries_sorted(s.update(p, e)),
        entries_map(s.update(p, e)) == entries_map(s).insert(e.fullname, e),
{
    let s2 = s.update(p, e);
    assert(entries_sorted(s2)) by {
        assert forall|i: int, j: int| 0 <= i < j < s2.len() implies bytes_lt(
            encode_utf8(#[trigger] s2[i].fullname),
            encode_utf8(#[trigger] s2[j].fullname),
        ) by {
            assert(s2[i].fullname == s[i].fullname);
            assert(s2[j].fullname == s[j].fullname);
        }
    }
    let m2 = entries_map(s2);
    let m3 = entries_map(s).insert(e.fullname, e);
    assert forall|k: Seq<char>| m2.contains_key(k) <==> m3.contains_key(k) by {
        if has_name(s2, k) {
            let i = choose|i: int| 0 <= i < s2.len() && #[trigger] s2[i].fullname == k;
            assert(s[i].fullname == k);
        }
        if has_name(s, k) {
            let i = choose|i: int| 0 <= i < s.len() && #[trigger] s[i].fullname == k;
            assert(s2[i].fullname == k);
        }
        if k == e.fullname {
            assert(s2[p].fullname == k);
        }
    }
    assert forall|k: Seq<char>| m2.contains_key(k) implies m2[k] == m3[k] by {
        let i = choose|i: int| 0 <= i < s2.len() && #[trigger] s2[i].fullname == k;
        lemma_map_at(s2, i);
        if i != p {
            lemma_map_at(s, i);
            if k == e.fullname {
                lemma_names_unique(s2, i, p);
            }
        } else {
            assert(s2[i] == e);
        }
    }
    assert(m2 =~= m3);
}

proof fn lemma_map_remove(s: Seq<EntryView>, p: int)
    requires
        entries_sorted(s),
        0 <= p < s.len(),
    ensures
        entries_sorted(s.remove(p)),
        entries_map(s.remove(p)) == entries_map(s).remove(s[p].fullname),
{
    let s2 = s.remove(p);
    assert(entries_sorted(s2)) by {
        assert forall|i: int, j: int| 0 <= i < j < s2.len() implies bytes_lt(
            encode_utf8(#[trigger] s2[i].fullname),
            encode_utf8(#[trigger] s2[j].fullname),
        ) by {
            let a = if i < p {
                i
            } else {
                i + 1
            };
            let b = if j < p {
                j
            } else {
                j + 1
            };
            assert(s2[i] == s[a]);
            assert(s2[j] == s[b]);
        }
    }
    let m2 = entries_map(s2);
    let m3 = entries_map(s).remove(s[p].fullname);
    assert forall|k: Seq<char>| m2.contains_key(k) <==> m3.contains_key(k) by {
        if has_name(s2, k) {
            let i = choose|i: int| 0 <= i < s2.len() && #[trigger] s2[i].fullname == k;
            let a = if i < p {
                i
            } else {
                i + 1
            };
            assert(s[a].fullname == k);
            if k == s[p].fullname {
                lemma_names_unique(s, a, p);
            }
        }
        if has_name(s, k) && k != s[p].fullname {
            let i = choose|i: int| 0 <= i < s.len() && #[trigger] s[i].fullname == k;
            if i < p {
                assert(s2[i].fullname == k);
            } else {
                assert(s2[i - 1].fullname == k);
            }
        }
    }
    assert forall|k: Seq<char>| m2.contains_key(k) implies m2[k] == m3[k] by {
        let i = choose|i: int| 0 <= i < s2.len() && #[trigger] s2[i].fullname == k;
        lemma_map_at(s2, i);
        let a = if i < p {
            i
        } else {
            i + 1
        };
        assert(s2[i] == s[a]);
        lemma_map_at(s, a);
        if k == s[p].fullname {
            lemma_names_unique(s, a, p);
        }
    }
    assert(m2 =~= m3);
}

/// The instance name of a resolved service is exactly the text of its full
/// name before the first `'.'`: a prefix of the full name that holds no `'.'`,
/// followed in the full name by a `'.'` unless it is the whole name.
pub proof fn lemma_instance_name(
    fullname: Seq<char>,
    hostname: Seq<char>,
    port: u16,
    role: Option<Seq<char>>,
)
    ensures
        ({
            let n = resolved_entry(fullname, hostname, port, role).instance_name;
            &&& n.len() <= fullname.len()
            &&& n == fullname.take(n.len() as int)
            &&& forall|k: int| 0 <= k < n.len() ==> n[k] != '.'
            &&& n.len() < fullname.len() ==> fullname[n.len() as int] == '.'
        }),
{
    lemma_first_label_shape(fullname, '.');
}

proof fn lemma_first_label_shape(s: Seq<char>, c: char)
    ensures
        first_label(s, c).len() <= s.len(),
        first_label(s, c) == s.take(first_label(s, c).len() as int),
        forall|k: int| 0 <= k < first_label(s, c).len() ==> first_label(s, c)[k] != c,
        first_label(s, c).len() < s.len() ==> s[first_label(s, c).len() as int] == c,
    decreases s.len(),
{
    if s.len() > 0 && s[0] != c {
        lemma_first_label_shape(s.drop_first(), c);
        let r = first_label(s.drop_first(), c);
        assert(first_label(s, c) =~= seq![s[0]] + r);
        assert(seq![s[0]] + r =~= s.take(r.len() as int + 1));
        assert forall|k: int| 0 <= k < first_label(s, c).len() implies first_label(s, c)[k]
            != c by {
            if k > 0 {
                assert(first_label(s, c)[k] == r[k - 1]);
            }
        }
    } else {
        assert(first_label(s, c) =~= s.take(0));
    }
}

/// After a service is resolved, its lowercased full name maps to the entry the
/// event describes.
pub proof fn lemma_resolved_then_found(m: Map<Seq<char>, EntryView>, ev: DiscoveryEvent)
    requires
        ev is ServiceResolved,
    ensures
        ev matches DiscoveryEvent::ServiceResolved { fullname, hostname, port, role } ==> {
            &&& apply_event_spec(m, ev).contains_key(unicode_lowercase(fullname@))
            &&& apply_event_spec(m, ev)[unicode_lowercase(fullname@)] == resolved_entry(
                fullname@,
                hostname@,
                port,
                opt_view(role),
            )
        },
{
}

/// After a service is removed, nothing is held under its lowercased full name.
pub proof fn lemma_removed_then_absent(m: Map<Seq<char>, EntryView>, ev: DiscoveryEvent)
    requires
        ev is ServiceRemoved,
    ensures
        ev matches DiscoveryEvent::ServiceRemoved { fullname } ==> !apply_event_spec(
            m,
            ev,
        ).contains_key(unicode_lowercase(fullname@)),
{
}

/// An event changes nothing held under any other name.
pub proof fn lemma_other_names_kept(m: Map<Seq<char>, EntryView>, ev: DiscoveryEvent, k: Seq<char>)
    requires
        match ev {
            DiscoveryEvent::ServiceResolved { fullname, .. } => k != unicode_lowercase(fullname@),
            DiscoveryEvent::ServiceRemoved { fullname } => k != unicode_lowercase(fullname@),
            DiscoveryEvent::Other => true,
        },
    ensures
        apply_event_spec(m, ev).contains_key(k) == m.contains_key(k),
        m.contains_key(k) ==> apply_event_spec(m, ev)[k] == m[k],
{
}

/// Reads the TXT `role` value: `None` when absent or blank, else trimmed and lowercased.
pub fn parse_txt_role(raw: Option<&str>) -> (r: Option<String>)
    ensures
        opt_view(r) == txt_role(
            match raw {
                Some(v) => Some(v@),
                None => None,
            },
        ),
{
    match raw {
        None => None,
        Some(v) => {
            let t = trim(v);
            if t.is_empty() {
                None
            } else {
                Some(to_ascii_lowercase(t))
            }
        },
    }
}

fn copy_entry(e: &DiscoveredEntry) -> (r: DiscoveredEntry)
    ensures
        r@ == e@,
{
    DiscoveredEntry {
        fullname: e.fullname.clone(),
        instance_name: e.instance_name.clone(),
        host: e.host.clone(),
        port: e.port,
        role: e.role.clone(),
    }
}

/// Resolved services in the byte order of their full names.
struct EntryList {
    entries: Vec<DiscoveredEntry>,
}

impl View for EntryList {
    type V = Map<Seq<char>, EntryView>;

    closed spec fn view(&self) -> Map<Seq<char>, EntryView> {
        entries_map(views(self.entries@))
    }
}

impl EntryList {
    /// The entries in the order they are listed.
    spec fn listing(&self) -> Seq<EntryView> {
        views(self.entries@)
    }

    spec fn wf(&self) -> bool {
        entries_sorted(views(self.entries@))
    }

    /// An empty cache.
    fn new() -> (c: Self)
        ensures
            c.wf(),
            c@ == Map::<Seq<char>, EntryView>::empty(),
            c.listing() == Seq::<EntryView>::empty(),
    {
        let c = EntryList { entries: Vec::new() };
        assert(c.listing() =~= Seq::<EntryView>::empty());
        assert(c@ =~= Map::<Seq<char>, EntryView>::empty());
        c
    }

    /// Where `key` stands or would stand in the listing, and whether it is there.
    fn position(&self, key: &String) -> (r: (bool, usize))
        requires
            self.wf(),
        ensures
            r.1 <= self.entries@.len(),
            r.0 ==> r.1 < self.entries@.len() && self.entries@[r.1 as int].fullname@ == key@,
            !r.0 ==> !has_name(self.listing(), key@),
            !r.0 ==> forall|j: int|
                0 <= j < r.1 ==> bytes_lt(
                    encode_utf8(#[trigger] self.entries@[j].fullname@),
                    encode_utf8(key@),
                ),
            !r.0 ==> forall|j: int|
                r.1 <= j < self.entries@.len() ==> bytes_lt(
                    encode_utf8(key@),
                    encode_utf8(#[trigger] self.entries@[j].fullname@),
                ),
    {
        let ghost s = self.listing();
        let n = self.entries.len();
        let mut i: usize = 0;
        while i < n
            invariant
                i <= n,
                n == self.entries@.len(),
                s == self.listing(),
                entries_sorted(s),
                forall|j: int|
                    0 <= j < i ==> bytes_lt(
                        encode_utf8(#[trigger] self.entries@[j].fullname@),
                        encode_utf8(key@),
                    ),
            decreases n - i,
        {
            if str_less(self.entries[i].fullname.as_str(), key.as_str()) {
                i = i + 1;
            } else {
                if self.entries[i].fullname == *key {
                    return (true, i);
                }
                proof {
                    let ki = encode_utf8(self.entries@[i as int].fullname@);
                    let kk = encode_utf8(key@);
                    if ki == kk {
                        lemma_utf8_injective(self.entries@[i as int].fullname@, key@);
                    }
                    lemma_bytes_lt_total(ki, kk);
                    assert forall|j: int| i <= j < n implies bytes_lt(
                        kk,
                        encode_utf8(#[trigger] self.entries@[j].fullname@),
                    ) by {
                        if j > i {
                            assert(s[i as int].fullname == self.entries@[i as int].fullname@);
                            assert(s[j].fullname == self.entries@[j].fullname@);
                            lemma_bytes_lt_transitive(kk, ki, encode_utf8(s[j].fullname));
                        }
                    }
                    self.lemma_absent_between(key@, i as int);
                }
                return (false, i);
            }
        }
        proof {
            self.lemma_absent_between(key@, n as int);
        }
        (false, n)
    }

    proof fn lemma_absent_between(&self, key: Seq<char>, p: int)
        requires
            0 <= p <= self.entries@.len(),
            forall|j: int|
                0 <= j < p ==> bytes_lt(
                    encode_utf8(#[trigger] self.entries@[j].fullname@),
                    encode_utf8(key),
                ),
            forall|j: int|
                p <= j < self.entries@.len() ==> bytes_lt(
                    encode_utf8(key),
                    encode_utf8(#[trigger] self.entries@[j].fullname@),
                ),
        ensures
            !has_name(self.listing(), key),
    {
        if has_name(self.listing(), key) {
            let s = self.listing();
            let i = choose|i: int| 0 <= i < s.len() && #[trigger] s[i].fullname == key;
            assert(s[i].fullname == self.entries@[i].fullname@);
            lemma_bytes_lt_irreflexive(encode_utf8(key));
        }
    }

    /// Stores `e` under its full name, replacing any entry held there.
    fn put(&mut self, e: DiscoveredEntry)
        requires
            old(self).wf(),
        ensures
            final(self).wf(),
            final(self)@ == old(self)@.insert(e@.fullname, e@),
    {
        let ghost s = self.listing();
        let (found, p) = self.position(&e.fullname);
        if found {
            proof {
                lemma_map_update(s, p as int, e@);
            }
            self.entries[p] = e;
            assert(self.listing() =~= s.update(p as int, e@));
        } else {
            let ghost ev = e@;
            self.entries.insert(p, e);
            assert(self.listing() =~= s.insert(p as int, ev));
            proof {
                let s2 = s.insert(p as int, ev);
                assert forall|i: int, j: int| 0 <= i < j < s2.len() implies bytes_lt(
                    encode_utf8(#[trigger] s2[i].fullname),
                    encode_utf8(#[trigger] s2[j].fullname),
                ) by {
                    if i < p && j < p {
                    } else if i < p && j == p {
                        assert(s[i].fullname == old(self).entries@[i].fullname@);
                    } else if i < p && j > p {
                        assert(s[i].fullname == old(self).entries@[i].fullname@);
                        assert(s[j - 1].fullname == old(self).entries@[j - 1].fullname@);
                        lemma_bytes_lt_transitive(
                            encode_utf8(s[i].fullname),
                            encode_utf8(ev.fullname),
                            encode_utf8(s[j - 1].fullname),
                        );
                    } else if i == p {
                        assert(s[j - 1].fullname == old(self).entries@[j - 1].fullname@);
                    } else {
                    }
                }
                lemma_map_insert(s, p as int, ev);
            }
        }
    }

    /// Drops the entry held under `key`, if any.
    fn drop_key(&mut self, key: &String)
        requires
            old(self).wf(),
        ensures
            final(self).wf(),
            final(self)@ == old(self)@.remove(key@),
    {
        let ghost s = self.listing();
        let (found, p) = self.position(key);
        if found {
            proof {
                lemma_map_remove(s, p as int);
            }
            self.entries.remove(p);
            assert(self.listing() =~= s.remove(p as int));
        } else {
            assert(self@ =~= old(self)@.remove(key@));
        }
    }

    /// Updates the cache with one browse event.
    fn apply_event(&mut self, ev: DiscoveryEvent)
        requires
            old(self).wf(),
        ensures
            final(self).wf(),
            final(self)@ == apply_event_spec(old(self)@, ev),
            ev matches DiscoveryEvent::ServiceResolved { fullname, .. } ==> (is_ascii_chars(
                fullname@,
            ) ==> unicode_lowercase(fullname@) == ascii_lowercase(fullname@)),
            ev matches DiscoveryEvent::ServiceRemoved { fullname } ==> (is_ascii_chars(fullname@)
                ==> unicode_lowercase(fullname@) == ascii_lowercase(fullname@)),
            ev matches DiscoveryEvent::ServiceResolved { fullname, .. } ==> ({
                let n = final(self)@[unicode_lowercase(fullname@)].instance_name;
                &&& n == fullname@.take(n.len() as int)
                &&& forall|k: int| 0 <= k < n.len() ==> n[k] != '.'
                &&& n.len() < fullname@.len() ==> fullname@[n.len() as int] == '.'
            }),
    {
        match ev {
            DiscoveryEvent::ServiceResolved { fullname, hostname, port, role } => {
                proof {
                    lemma_instance_name(fullname@, hostname@, port, opt_view(role));
                }
                let key = to_lowercase(fullname.as_str());
                let instance_name = first_field(fullname.as_str(), '.').to_owned();
                let host = trim_end_char(hostname.as_str(), '.').to_owned();
                let parsed = match &role {
                    Some(r) => parse_txt_role(Some(r.as_str())),
                    None => parse_txt_role(None),
                };
                let role_text = match parsed {
                    Some(r) => r,
                    None => String::new(),
                };
                let e = DiscoveredEntry { fullname: key, instance_name, host, port, role: role_text };
                self.put(e);
            },
            DiscoveryEvent::ServiceRemoved { fullname } => {
                let key = to_lowercase(fullname.as_str());
                self.drop_key(&key);
            },
            DiscoveryEvent::Other => {},
        }
    }

    /// The entry held under the lowercased `fullname`, if any.
    fn lookup_fullname(&self, fullname: &str) -> (r: Option<DiscoveredEntry>)
        requires
            self.wf(),
        ensures
            r is Some <==> self@.contains_key(unicode_lowercase(fullname@)),
            r matches Some(e) ==> e@ == self@[unicode_lowercase(fullname@)],
            is_ascii_chars(fullname@) ==> unicode_lowercase(fullname@) == ascii_lowercase(
                fullname@,
            ),
    {
        let key = to_lowercase(fullname);
        let (found, p) = self.position(&key);
        if found {
            proof {
                lemma_map_at(self.listing(), p as int);
            }
            Some(copy_entry(&self.entries[p]))
        } else {
            None
        }
    }

    /// Every entry, sorted by full name.
    fn sorted_snapshot(&self) -> (v: Vec<DiscoveredEntry>)
        requires
            self.wf(),
        ensures
            views(v@) == self.listing(),
            entries_sorted(views(v@)),
            entries_map(views(v@)) == self@,
    {
        let mut out: Vec<DiscoveredEntry> = Vec::new();
        let n = self.entries.len();
        let mut i: usize = 0;
        while i < n
            invariant
                i <= n,
                n == self.entries@.len(),
                out@.len() == i,
                views(out@) == self.listing().take(i as int),
            decreases n - i,
        {
            let c = copy_entry(&self.entries[i]);
            let ghost before = out@;
            out.push(c);
            assert(out@ == before.push(c));
            assert(views(out@).len() == i + 1);
            assert(views(out@)[i as int] == c@);
            assert(views(out@) =~= self.listing().take(i + 1)) by {
                assert forall|j: int| 0 <= j < i + 1 implies #[trigger] views(out@)[j]
                    == self.listing().take(i + 1)[j] by {
                    if j < i {
                        assert(views(before)[j] == self.listing().take(i as int)[j]);
                    }
                }
            }
            i = i + 1;
        }
        assert(self.listing().take(n as int) =~= self.listing());
        out
    }

    /// The number of entries.
    fn len(&self) -> (n: usize)
        requires
            self.wf(),
        ensures
            n == self.listing().len(),
            n == self@.len(),
    {
        proof {
            lemma_map_len(self.listing());
        }
        self.entries.len()
    }

    /// The entry at `index` of the sorted listing, if there is one.
    fn entry_at(&self, index: usize) -> (r: Option<DiscoveredEntry>)
        ensures
            r is Some <==> index < self.listing().len(),
            r matches Some(e) ==> e@ == self.listing()[index as int],
    {
        if index < self.entries.len() {
            Some(copy_entry(&self.entries[index]))
        } else {
            None
        }
    }
}

/// The resolved services seen by the browse, keyed by lowercased full name.
pub struct DiscoveryCache {
    list: EntryList,
}

impl View for DiscoveryCache {
    type V = Map<Seq<char>, EntryView>;

    closed spec fn view(&self) -> Map<Seq<char>, EntryView> {
        self.list@
    }
}

impl DiscoveryCache {
    /// The entries are kept sorted by full name, one per name.
    #[verifier::type_invariant]
    spec fn sorted(&self) -> bool {
        self.list.wf()
    }

    /// The entries in the order they are listed.
    pub closed spec fn listing(&self) -> Seq<EntryView> {
        self.list.listing()
    }

    /// An empty cache.
    pub fn new() -> (c: Self)
        ensures
            c@ == Map::<Seq<char>, EntryView>::empty(),
            c.listing() == Seq::<EntryView>::empty(),
    {
        DiscoveryCache { list: EntryList::new() }
    }

    /// Updates the cache with one browse event.
    pub fn apply_event(&mut self, ev: DiscoveryEvent)
        ensures
            final(self)@ == apply_event_spec(old(self)@, ev),
            ev matches DiscoveryEvent::ServiceResolved { fullname, .. } ==> (is_ascii_chars(
                fullname@,
            ) ==> unicode_lowercase(fullname@) == ascii_lowercase(fullname@)),
            ev matches DiscoveryEvent::ServiceRemoved { fullname } ==> (is_ascii_chars(fullname@)
                ==> unicode_lowercase(fullname@) == ascii_lowercase(fullname@)),
            ev matches DiscoveryEvent::ServiceResolved { fullname, .. } ==> ({
                let n = final(self)@[unicode_lowercase(fullname@)].instance_name;
                &&& n == fullname@.take(n.len() as int)
                &&& forall|k: int| 0 <= k < n.len() ==> n[k] != '.'
                &&& n.len() < fullname@.len() ==> fullname@[n.len() as int] == '.'
            }),
    {
        proof {
            use_type_invariant(&*self);
        }
        let mut list = EntryList::new();
        std::mem::swap(&mut list, &mut self.list);
        list.apply_event(ev);
        self.list = list;
    }

    /// The entry held under the lowercased `fullname`, if any.
    pub fn lookup_fullname(&self, fullname: &str) -> (r: Option<DiscoveredEntry>)
        ensures
            r is Some <==> self@.contains_key(unicode_lowercase(fullname@)),
            r matches Some(e) ==> e@ == self@[unicode_lowercase(fullname@)],
            is_ascii_chars(fullname@) ==> unicode_lowercase(fullname@) == ascii_lowercase(
                fullname@,
            ),
    {
        proof {
            use_type_invariant(self);
        }
        self.list.lookup_fullname(fullname)
    }

    /// Every entry, sorted by full name, one per name: the listing.
    pub fn sorted_snapshot(&self) -> (v: Vec<DiscoveredEntry>)
        ensures
            views(v@) == self.listing(),
            entries_sorted(views(v@)),
            entries_map(views(v@)) == self@,
    {
        proof {
            use_type_invariant(self);
        }
        self.list.sorted_snapshot()
    }

    /// The number of entries: the number of names held.
    pub fn len(&self) -> (n: usize)
        ensures
            n == self.listing().len(),
            n == self@.len(),
    {
        proof {
            use_type_invariant(self);
        }
        self.list.len()
    }

    /// The entry at `index` of the sorted listing, if there is one.
    pub fn entry_at(&self, index: usize) -> (r: Option<DiscoveredEntry>)
        ensures
            r is Some <==> index < self.listing().len(),
            r matches Some(e) ==> e@ == self.listing()[index as int],
    {
        self.list.entry_at(index)
    }
}

/// What came of one bounded wait on the browse channel.
pub enum RecvOutcome {
    Event(DiscoveryEvent),
    Timeout,
    Disconnected,
}

/// The longest single wait on the browse channel, in nanoseconds (50 ms).
pub const BROWSE_SLICE_NANOS: u64 = 50_000_000;

/// The next wait on the browse channel when `remaining_nanos` are left before
/// the deadline: none once the deadline is reached, else at most 50 ms.
pub fn browse_wait_slice(remaining_nanos: u64) -> (r: Option<u64>)
    ensures
        remaining_nanos == 0 ==> r is None,
        remaining_nanos > 0 ==> r == Some(
            if remaining_nanos < BROWSE_SLICE_NANOS {
                remaining_nanos
            } else {
                BROWSE_SLICE_NANOS
            },
        ),
{
    if remaining_nanos == 0 {
        None
    } else if remaining_nanos < BROWSE_SLICE_NANOS {
        Some(remaining_nanos)
    } else {
        Some(BROWSE_SLICE_NANOS)
    }
}

impl DiscoveryCache {
    /// Handles one wait on the browse channel: an event updates the cache, a
    /// timeout changes nothing, and a lost channel ends the refresh with an
    /// error (the caller drops the receiver).
    pub fn handle_recv(&mut self, outcome: RecvOutcome) -> (r: Result<(), String>)
        ensures
            match outcome {
                RecvOutcome::Event(ev) => r is Ok && final(self)@ == apply_event_spec(
                    old(self)@,
                    ev,
                ),
                RecvOutcome::Timeout => r is Ok && final(self)@ == old(self)@,
                RecvOutcome::Disconnected => final(self)@ == old(self)@ && (r matches Err(m)
                    && m@ == "mDNS browse channel disconnected"@),
            },
    {
        match outcome {
            RecvOutcome::Event(ev) => {
                self.apply_event(ev);
                Ok(())
            },
            RecvOutcome::Timeout => Ok(()),
            RecvOutcome::Disconnected => Err("mDNS browse channel disconnected".to_owned()),
        }
    }
}

} // verus!
