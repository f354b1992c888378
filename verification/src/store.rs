//! The in-memory registry mapping short identifiers to destination URLs.

use vstd::prelude::*;

use crate::errors::LinkError;
use crate::ids::{
    encode_digits, encode_id, lemma_encode_digits_injective, lemma_id_space, random_short_id,
    valid_short_id, ID_SPACE, SHORT_ID_LEN,
};

verus! {

/// How many random identifiers are probed before the deterministic scan
/// takes over. Collisions are rare, so the scan is all but unreachable.
const MAX_RANDOM_PROBES: usize = 128;

/// One stored link: a short identifier and the URL it stands for.
pub struct LinkRecord {
    pub short_id: String,
    pub target_url: String,
}

/// The mapping that a sequence of records represents. A later record for a
/// key would win, though a store never holds the same key twice.
pub open spec fn map_of(records: Seq<LinkRecord>) -> Map<Seq<char>, Seq<char>>
    decreases records.len(),
{
    if records.len() == 0 {
        Map::empty()
    } else {
        map_of(records.drop_last()).insert(
            records.last().short_id@,
            records.last().target_url@,
        )
    }
}

/// No two records share a short identifier.
pub open spec fn unique_keys(records: Seq<LinkRecord>) -> bool {
    forall|i: int, j: int|
        0 <= i < j < records.len() ==> records[i].short_id@ != records[j].short_id@
}

/// What resolving `short_id` against `entries` yields: the stored URL, or
/// nothing when the identifier has no mapping.
pub open spec fn resolve_spec(entries: Map<Seq<char>, Seq<char>>, short_id: Seq<char>) -> Option<
    Seq<char>,
> {
    if entries.contains_key(short_id) {
        Some(entries[short_id])
    } else {
        None
    }
}

/// A key is in the represented mapping exactly when some record carries it.
proof fn lemma_map_of_contains(records: Seq<LinkRecord>, key: Seq<char>)
    ensures
        map_of(records).contains_key(key) <==> (exists|i: int|
            0 <= i < records.len() && records[i].short_id@ == key),
    decreases records.len(),
{
    if records.len() > 0 {
        let prefix = records.drop_last();
        lemma_map_of_contains(prefix, key);
        if records.last().short_id@ == key {
            assert(records[records.len() - 1].short_id@ == key);
        } else {
            if map_of(records).contains_key(key) {
                let i = choose|i: int| 0 <= i < prefix.len() && prefix[i].short_id@ == key;
                assert(records[i].short_id@ == key);
            }
            if exists|i: int| 0 <= i < records.len() && records[i].short_id@ == key {
                let i = choose|i: int| 0 <= i < records.len() && records[i].short_id@ == key;
                assert(i < records.len() - 1);
                assert(prefix[i].short_id@ == key);
            }
        }
    }
}

/// Records that never repeat a key keep doing so when the last one is
/// dropped.
proof fn lemma_unique_keys_prefix(records: Seq<LinkRecord>)
    requires
        unique_keys(records),
        records.len() > 0,
    ensures
        unique_keys(records.drop_last()),
{
    let prefix = records.drop_last();
    assert forall|a: int, b: int|
        0 <= a < b < prefix.len() implies prefix[a].short_id@ != prefix[b].short_id@ by {
        assert(prefix[a] == records[a]);
        assert(prefix[b] == records[b]);
    }
}

/// With no key held twice, the record that carries a key gives its value.
proof fn lemma_map_of_value(records: Seq<LinkRecord>, i: int)
    requires
        unique_keys(records),
        0 <= i < records.len(),
    ensures
        map_of(records).contains_key(records[i].short_id@),
        map_of(records)[records[i].short_id@] == records[i].target_url@,
    decreases records.len(),
{
    if i < records.len() - 1 {
        let prefix = records.drop_last();
        lemma_unique_keys_prefix(records);
        lemma_map_of_value(prefix, i);
        assert(prefix[i] == records[i]);
        assert(records[i].short_id@ != records.last().short_id@);
    }
}

/// With no key held twice, the mapping has exactly one entry per record.
proof fn lemma_map_of_card(records: Seq<LinkRecord>)
    requires
        unique_keys(records),
    ensures
        map_of(records).dom().finite(),
        map_of(records).dom().len() == records.len(),
    decreases records.len(),
{
    if records.len() > 0 {
        let prefix = records.drop_last();
        let last_key = records.last().short_id@;
        lemma_unique_keys_prefix(records);
        lemma_map_of_card(prefix);
        lemma_map_of_contains(prefix, last_key);
        assert(!map_of(prefix).contains_key(last_key)) by {
            if exists|i: int| 0 <= i < prefix.len() && prefix[i].short_id@ == last_key {
                let i = choose|i: int| 0 <= i < prefix.len() && prefix[i].short_id@ == last_key;
                assert(records[i].short_id@ == records[records.len() - 1].short_id@);
            }
        }
        assert(map_of(records).dom() =~= map_of(prefix).dom().insert(last_key));
    }
}

/// The in-memory registry of short links. Its view is the mapping from
/// identifier to URL that its records represent.
pub struct LinkStore {
    records: Vec<LinkRecord>,
}

impl View for LinkStore {
    type V = Map<Seq<char>, Seq<char>>;

    closed spec fn view(&self) -> Map<Seq<char>, Seq<char>> {
        map_of(self.records@)
    }
}

impl LinkStore {
    /// Keys stay unique for the life of the store.
    #[verifier::type_invariant]
    spec fn wf(&self) -> bool {
        unique_keys(self.records@)
    }

    /// A fresh store holds no links.
    pub fn new() -> (store: LinkStore)
        ensures
            store@ == Map::<Seq<char>, Seq<char>>::empty(),
    {
        LinkStore { records: Vec::new() }
    }

    /// How many links the store holds.
    pub fn len(&self) -> (n: usize)
        ensures
            n == self@.dom().len(),
    {
        proof {
            use_type_invariant(&*self);
            lemma_map_of_card(self.records@);
        }
        self.records.len()
    }

    /// Whether an identifier is currently bound.
    #[verifier::loop_isolation(false)]
    pub fn contains_key(&self, short_id: &String) -> (held: bool)
        ensures
            held == self@.contains_key(short_id@),
    {
        proof {
            lemma_map_of_contains(self.records@, short_id@);
        }
        let n: usize = self.records.len();
        let mut i: usize = 0;
        while i < n
            invariant
                i <= n,
                forall|j: int| 0 <= j < i ==> self.records@[j].short_id@ != short_id@,
            decreases n - i,
        {
            if self.records[i].short_id == *short_id {
                return true;
            }
            i += 1;
        }
        false
    }

    /// Look an identifier up: the URL it was created with, or `NotFound`
    /// when it has no mapping. The store is never changed.
    #[verifier::loop_isolation(false)]
    pub fn resolve(&self, short_id: &String) -> (result: Result<String, LinkError>)
        ensures
            (match result {
                Ok(url) => resolve_spec(self@, short_id@) == Some(url@),
                Err(e) => resolve_spec(self@, short_id@) is None && e == LinkError::NotFound,
            }),
    {
        proof {
            use_type_invariant(&*self);
            lemma_map_of_contains(self.records@, short_id@);
        }
        let n: usize = self.records.len();
        let mut i: usize = 0;
        while i < n
            invariant
                i <= n,
                forall|j: int| 0 <= j < i ==> self.records@[j].short_id@ != short_id@,
            decreases n - i,
        {
            if self.records[i].short_id == *short_id {
                proof {
                    lemma_map_of_value(self.records@, i as int);
                }
                return Ok(self.records[i].target_url.clone());
            }
            i += 1;
        }
        Err(LinkError::NotFound)
    }

    /// An identifier that no current link uses, found by walking the
    /// identifier space from the bottom. Needs a store with at least one
    /// identifier left: among `len + 1` distinct candidates, one must be
    /// free.
    #[verifier::loop_isolation(false)]
    fn scan_fresh_id(&self) -> (short_id: String)
        requires
            self@.dom().len() < ID_SPACE,
        ensures
            !self@.contains_key(short_id@),
            valid_short_id(short_id@),
    {
        proof {
            use_type_invariant(&*self);
            lemma_map_of_card(self.records@);
            lemma_id_space();
        }
        let n: usize = self.records.len();
        let mut j: u64 = 0;
        let ghost mut probed: Set<Seq<char>> = Set::empty();
        while j <= n as u64
            invariant
                j <= n as u64 + 1,
                probed.finite(),
                probed.len() == j as nat,
                probed.subset_of(self@.dom()),
                forall|m: nat|
                    m < j ==> probed.contains(#[trigger] encode_digits(m, SHORT_ID_LEN as nat)),
                forall|s: Seq<char>| #[trigger]
                    probed.contains(s) ==> exists|m: nat|
                        m < j && s == encode_digits(m, SHORT_ID_LEN as nat),
            decreases n as u64 + 1 - j,
        {
            let candidate = encode_id(j);
            if !self.contains_key(&candidate) {
                return candidate;
            }
            proof {
                assert(!probed.contains(candidate@)) by {
                    if probed.contains(candidate@) {
                        let m = choose|m: nat|
                            m < j && candidate@ == encode_digits(m, SHORT_ID_LEN as nat);
                        lemma_encode_digits_injective(m, j as nat, SHORT_ID_LEN as nat);
                    }
                }
                probed = probed.insert(candidate@);
            }
            j += 1;
        }
        proof {
            vstd::set_lib::lemma_len_subset(probed, self@.dom());
            assert(false);
        }
        unreached()
    }

    /// An identifier that no current link uses, of the required shape:
    /// random identifiers are generated until one is free. The probing is
    /// capped — an explicit bound in place of an open-ended retry — and
    /// falls back to the deterministic scan, so the call always returns.
    #[verifier::loop_isolation(false)]
    fn fresh_short_id(&self) -> (short_id: String)
        requires
            self@.dom().len() < ID_SPACE,
        ensures
            !self@.contains_key(short_id@),
            valid_short_id(short_id@),
    {
        let mut attempts: usize = 0;
        while attempts < MAX_RANDOM_PROBES
            invariant
                attempts <= MAX_RANDOM_PROBES,
            decreases MAX_RANDOM_PROBES - attempts,
        {
            let candidate = random_short_id();
            if !self.contains_key(&candidate) {
                return candidate;
            }
            attempts += 1;
        }
        self.scan_fresh_id()
    }

    /// Bind a freshly generated identifier to `target_url` and return it.
    /// The identifier was not bound before, every earlier binding is kept,
    /// and the identifier has the required shape. Needs a store that has
    /// not exhausted the identifier space; `len` lets a caller check.
    pub fn create_short_link(&mut self, target_url: String) -> (short_id: String)
        requires
            old(self)@.dom().len() < ID_SPACE,
        ensures
            !old(self)@.contains_key(short_id@),
            final(self)@ == old(self)@.insert(short_id@, target_url@),
            valid_short_id(short_id@),
    {
        proof {
            use_type_invariant(&*self);
        }
        let short_id = self.fresh_short_id();
        let record_id = short_id.clone();
        let mut records: Vec<LinkRecord> = Vec::new();
        std::mem::swap(&mut records, &mut self.records);
        proof {
            lemma_map_of_contains(records@, short_id@);
        }
        let ghost before = records@;
        records.push(LinkRecord { short_id: record_id, target_url });
        proof {
            assert(records@.drop_last() =~= before);
            assert(unique_keys(records@)) by {
                assert forall|a: int, b: int|
                    0 <= a < b < records@.len() implies records@[a].short_id@
                    != records@[b].short_id@ by {
                    if b < records@.len() - 1 {
                        assert(records@[a] == before[a]);
                        assert(records@[b] == before[b]);
                    } else {
                        assert(records@[a] == before[a]);
                    }
                }
            }
        }
        self.records = records;
        short_id
    }
}

} // verus!
