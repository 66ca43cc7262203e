//! Which file handle reads a blob: handles registered by the prefix of the
//! URIs they serve.

use crate::text::{same, starts_with};
use vstd::prelude::*;
use vstd::string::*;

verus! {

/// The handles of a registry, by their prefixes.
pub type Readers<F> = Map<Seq<char>, F>;

/// Whether `prefix` is the longest registered prefix of `uri`.
pub open spec fn longest_match<F>(
    readers: Readers<F>,
    uri: Seq<char>,
    prefix: Seq<char>,
) -> bool {
    &&& readers.contains_key(prefix)
    &&& prefix.is_prefix_of(uri)
    &&& forall|other: Seq<char>| #[trigger]
        readers.contains_key(other) && other.is_prefix_of(uri) ==> other.len() <= prefix.len()
}

/// The handle of the longest registered prefix of `uri`.
pub open spec fn resolved<F>(readers: Readers<F>, uri: Seq<char>) -> Option<F> {
    if exists|prefix: Seq<char>| #[trigger] longest_match(readers, uri, prefix) {
        Some(readers[choose|prefix: Seq<char>| #[trigger] longest_match(readers, uri, prefix)])
    } else {
        None
    }
}

/// `readers` with a handle for `prefix`: its own, or `file_io` where it has
/// none.
pub open spec fn with_default<F>(
    readers: Readers<F>,
    prefix: Seq<char>,
    file_io: F,
) -> Readers<F> {
    if readers.contains_key(prefix) {
        readers
    } else {
        readers.insert(prefix, file_io)
    }
}

/// A handle and the prefix of the URIs it serves.
#[derive(Debug)]
struct BlobFileIO<F> {
    prefix: String,
    file_io: F,
}

/// Session-scoped registry of file handles for blob descriptor reads. `F` is
/// the handle.
#[derive(Debug)]
pub struct BlobReaderRegistry<F> {
    readers: Vec<BlobFileIO<F>>,
}

/// The prefix of the entry at `i`.
spec fn prefix_at<F>(readers: Seq<BlobFileIO<F>>, i: int) -> Seq<char> {
    readers[i].prefix@
}

/// Whether the entry at `i` holds `prefix`.
spec fn holds<F>(readers: Seq<BlobFileIO<F>>, prefix: Seq<char>, i: int) -> bool {
    0 <= i < readers.len() && prefix_at(readers, i) == prefix
}

/// The handles of the entries, by their prefixes.
spec fn by_prefix<F>(readers: Seq<BlobFileIO<F>>) -> Readers<F> {
    Map::new(
        |prefix: Seq<char>| exists|i: int| #[trigger] holds(readers, prefix, i),
        |prefix: Seq<char>|
            readers[choose|i: int| #[trigger] holds(readers, prefix, i)].file_io,
    )
}

/// Whether no two entries have one prefix.
spec fn distinct<F>(readers: Seq<BlobFileIO<F>>) -> bool {
    forall|i: int, j: int|
        0 <= i < j < readers.len() ==> #[trigger] prefix_at(readers, i) != #[trigger] prefix_at(
            readers,
            j,
        )
}

/// Each entry is what the map holds for its prefix.
proof fn lemma_entry<F>(readers: Seq<BlobFileIO<F>>, i: int)
    requires
        distinct(readers),
        0 <= i < readers.len(),
    ensures
        by_prefix(readers).contains_key(readers[i].prefix@),
        by_prefix(readers)[readers[i].prefix@] == readers[i].file_io,
{
    let prefix = readers[i].prefix@;
    assert(holds(readers, prefix, i));
    let j = choose|j: int| #[trigger] holds(readers, prefix, j);
    assert(i == j);
}

impl<F> View for BlobReaderRegistry<F> {
    type V = Readers<F>;

    closed spec fn view(&self) -> Readers<F> {
        by_prefix(self.readers@)
    }
}

impl<F> Default for BlobReaderRegistry<F> {
    fn default() -> (registry: Self)
        ensures
            registry@ == Map::<Seq<char>, F>::empty(),
    {
        let registry = BlobReaderRegistry { readers: Vec::new() };
        assert(registry@ =~= Map::<Seq<char>, F>::empty()) by {
            assert forall|prefix: Seq<char>| !registry@.contains_key(prefix) by {}
        }
        registry
    }
}

impl<F> BlobReaderRegistry<F> {
    #[verifier::type_invariant]
    spec fn no_prefix_twice(self) -> bool {
        distinct(self.readers@)
    }

    /// Where `prefix` is registered.
    fn position(&self, prefix: &str) -> (found: Option<usize>)
        ensures
            match found {
                Some(i) => holds(self.readers@, prefix@, i as int),
                None => !self@.contains_key(prefix@),
            },
    {
        let mut i: usize = 0;
        while i < self.readers.len()
            invariant
                i <= self.readers@.len(),
                forall|j: int| 0 <= j < i ==> !#[trigger] holds(self.readers@, prefix@, j),
            decreases self.readers@.len() - i,
        {
            if same(self.readers[i].prefix.as_str(), prefix) {
                return Some(i);
            }
            i = i + 1;
        }
        None
    }

    /// Adds an entry for a prefix that has none.
    fn add(&mut self, prefix: String, file_io: F)
        requires
            !old(self)@.contains_key(prefix@),
        ensures
            final(self)@ == old(self)@.insert(prefix@, file_io),
    {
        proof {
            use_type_invariant(&*self);
        }
        let mut readers: Vec<BlobFileIO<F>> = Vec::new();
        std::mem::swap(&mut readers, &mut self.readers);
        let ghost before = readers@;
        readers.push(BlobFileIO { prefix, file_io });
        proof {
            let after = readers@;
            let last = before.len() as int;
            assert forall|i: int, j: int| 0 <= i < j < after.len() implies #[trigger] prefix_at(
                after,
                i,
            ) != #[trigger] prefix_at(after, j) by {
                assert(prefix_at(after, i) == prefix_at(before, i));
                if j < last {
                    assert(prefix_at(after, j) == prefix_at(before, j));
                } else if prefix_at(before, i) == prefix@ {
                    assert(holds(before, prefix@, i));
                }
            }
            assert forall|p: Seq<char>|
                by_prefix(after).contains_key(p) <==> by_prefix(before).insert(
                    prefix@,
                    file_io,
                ).contains_key(p) by {
                if p == prefix@ {
                    assert(holds(after, p, last));
                }
                if exists|i: int| #[trigger] holds(before, p, i) {
                    let i = choose|i: int| #[trigger] holds(before, p, i);
                    assert(holds(after, p, i));
                }
                if exists|i: int| #[trigger] holds(after, p, i) {
                    let i = choose|i: int| #[trigger] holds(after, p, i);
                    if i < last {
                        assert(holds(before, p, i));
                    }
                }
            }
            assert forall|p: Seq<char>| #[trigger] by_prefix(after).contains_key(p) implies by_prefix(
                after,
            )[p] == by_prefix(before).insert(prefix@, file_io)[p] by {
                let i = choose|i: int| #[trigger] holds(after, p, i);
                lemma_entry(after, i);
                if i < last {
                    lemma_entry(before, i);
                    assert(p != prefix@);
                }
            }
            assert(by_prefix(after) =~= by_prefix(before).insert(prefix@, file_io));
        }
        self.readers = readers;
    }

    /// Registers a handle for a prefix, in place of the one it may have.
    pub fn register(&mut self, prefix: String, file_io: F)
        ensures
            final(self)@ == old(self)@.insert(prefix@, file_io),
    {
        proof {
            use_type_invariant(&*self);
        }
        match self.position(prefix.as_str()) {
            Some(i) => {
                let mut readers: Vec<BlobFileIO<F>> = Vec::new();
                std::mem::swap(&mut readers, &mut self.readers);
                let ghost before = readers@;
                let entry = BlobFileIO { prefix, file_io };
                readers[i] = entry;
                proof {
                    let after = readers@;
                    assert forall|j: int| 0 <= j < after.len() implies #[trigger] prefix_at(after, j)
                        == prefix_at(before, j) by {}
                    assert forall|j: int, k: int| 0 <= j < k < after.len() implies
                        #[trigger] prefix_at(after, j) != #[trigger] prefix_at(after, k) by {
                        assert(prefix_at(before, j) != prefix_at(before, k));
                    }
                    assert(holds(before, prefix@, i as int));
                    assert forall|p: Seq<char>, j: int| #[trigger] holds(after, p, j) == holds(
                        before,
                        p,
                        j,
                    ) by {}
                    assert forall|p: Seq<char>|
                        by_prefix(after).contains_key(p) <==> by_prefix(before).insert(
                            prefix@,
                            file_io,
                        ).contains_key(p) by {
                        if exists|j: int| #[trigger] holds(before, p, j) {
                            let j = choose|j: int| #[trigger] holds(before, p, j);
                            assert(holds(after, p, j));
                        }
                    }
                    assert forall|p: Seq<char>| #[trigger]
                        by_prefix(after).contains_key(p) implies by_prefix(after)[p] == by_prefix(
                        before,
                    ).insert(prefix@, file_io)[p] by {
                        let j = choose|j: int| #[trigger] holds(after, p, j);
                        lemma_entry(after, j);
                        lemma_entry(before, j);
                        if j != i {
                            assert(prefix_at(before, j) != prefix_at(before, i as int));
                        }
                    }
                    assert(by_prefix(after) =~= by_prefix(before).insert(prefix@, file_io));
                }
                self.readers = readers;
            },
            None => self.add(prefix, file_io),
        }
    }

    /// Registers a handle for a prefix, unless it has one.
    pub fn register_if_absent(&mut self, prefix: String, file_io: F)
        ensures
            final(self)@ == with_default(old(self)@, prefix@, file_io),
            !old(self)@.contains_key(prefix@) ==> final(self)@ == old(self)@.insert(
                prefix@,
                file_io,
            ),
            old(self)@.contains_key(prefix@) ==> final(self)@ == old(self)@,
    {
        match self.position(prefix.as_str()) {
            Some(_) => {},
            None => self.add(prefix, file_io),
        }
    }
}

impl<F: Clone> BlobReaderRegistry<F> {
    /// The handle registered for the longest prefix of `uri`.
    pub fn resolve(&self, uri: &str) -> (file_io: Option<F>)
        ensures
            match (file_io, resolved(self@, uri@)) {
                (Some(file_io), Some(registered)) => cloned(registered, file_io),
                (None, None) => true,
                _ => false,
            },
            file_io is Some <==> exists|prefix: Seq<char>| #[trigger]
                self@.contains_key(prefix) && prefix.is_prefix_of(uri@),
            forall|prefix: Seq<char>| #[trigger]
                self@.contains_key(prefix) && prefix.is_prefix_of(uri@) && (forall|other: Seq<char>|
                 #[trigger]
                    self@.contains_key(other) && other.is_prefix_of(uri@) ==> other.len()
                        <= prefix.len()) ==> (file_io matches Some(file_io) && cloned(
                    self@[prefix],
                    file_io,
                )),
    {
        proof {
            use_type_invariant(self);
            law_resolves_where_a_prefix_matches(self@, uri@);
            assert forall|prefix: Seq<char>| #[trigger]
                self@.contains_key(prefix) && prefix.is_prefix_of(uri@) && (forall|other: Seq<char>|
                 #[trigger]
                    self@.contains_key(other) && other.is_prefix_of(uri@) ==> other.len()
                        <= prefix.len()) implies resolved(self@, uri@) == Some(self@[prefix]) by {
                law_longest_prefix_wins(self@, uri@, prefix);
            }
        }
        let mut best: Option<usize> = None;
        let mut i: usize = 0;
        while i < self.readers.len()
            invariant
                i <= self.readers@.len(),
                match best {
                    Some(b) => {
                        &&& b < i
                        &&& prefix_at(self.readers@, b as int).is_prefix_of(uri@)
                        &&& forall|j: int|
                            0 <= j < i && (#[trigger] prefix_at(self.readers@, j)).is_prefix_of(
                                uri@,
                            ) ==> prefix_at(self.readers@, j).len() <= prefix_at(
                                self.readers@,
                                b as int,
                            ).len()
                    },
                    None => forall|j: int|
                        0 <= j < i ==> !(#[trigger] prefix_at(self.readers@, j)).is_prefix_of(uri@),
                },
            decreases self.readers@.len() - i,
        {
            let prefix = self.readers[i].prefix.as_str();
            assert(prefix@ == prefix_at(self.readers@, i as int));
            if starts_with(uri, prefix) {
                let longer = match best {
                    Some(b) => self.readers[b].prefix.as_str().unicode_len() <= prefix.unicode_len(),
                    None => true,
                };
                if longer {
                    best = Some(i);
                }
            }
            i = i + 1;
        }
        match best {
            Some(b) => {
                let file_io = self.readers[b].file_io.clone();
                proof {
                    let prefix = prefix_at(self.readers@, b as int);
                    lemma_entry(self.readers@, b as int);
                    assert forall|other: Seq<char>| #[trigger]
                        self@.contains_key(other) && other.is_prefix_of(uri@) implies other.len()
                        <= prefix.len() by {
                        let j = choose|j: int| #[trigger] holds(self.readers@, other, j);
                        assert(prefix_at(self.readers@, j) == other);
                    }
                    assert(longest_match(self@, uri@, prefix));
                    law_longest_prefix_wins(self@, uri@, prefix);
                }
                Some(file_io)
            },
            None => {
                assert forall|prefix: Seq<char>| !#[trigger] longest_match(self@, uri@, prefix) by {
                    if longest_match(self@, uri@, prefix) {
                        let j = choose|j: int| #[trigger] holds(self.readers@, prefix, j);
                        assert(prefix_at(self.readers@, j) == prefix);
                    }
                }
                None
            },
        }
    }
}

/// The longest of the registered prefixes of a URI decides.
pub proof fn law_longest_prefix_wins<F>(readers: Readers<F>, uri: Seq<char>, prefix: Seq<char>)
    requires
        longest_match(readers, uri, prefix),
    ensures
        resolved(readers, uri) == Some(readers[prefix]),
{
    let chosen = choose|chosen: Seq<char>| #[trigger] longest_match(readers, uri, chosen);
    assert(chosen =~= prefix);
}

/// A URI resolves where some registered prefix begins it, and nowhere else.
pub proof fn law_resolves_where_a_prefix_matches<F>(readers: Readers<F>, uri: Seq<char>)
    ensures
        resolved(readers, uri) is Some <==> exists|prefix: Seq<char>| #[trigger]
            readers.contains_key(prefix) && prefix.is_prefix_of(uri),
{
    if exists|prefix: Seq<char>| #[trigger]
        readers.contains_key(prefix) && prefix.is_prefix_of(uri) {
        let prefix = choose|prefix: Seq<char>| #[trigger]
            readers.contains_key(prefix) && prefix.is_prefix_of(uri);
        lemma_longest_match_exists(readers, uri, prefix);
    }
    if resolved(readers, uri) is Some {
        let prefix = choose|prefix: Seq<char>| #[trigger] longest_match(readers, uri, prefix);
        assert(readers.contains_key(prefix) && prefix.is_prefix_of(uri));
    }
}

proof fn lemma_longest_match_exists<F>(readers: Readers<F>, uri: Seq<char>, prefix: Seq<char>)
    requires
        readers.contains_key(prefix),
        prefix.is_prefix_of(uri),
    ensures
        exists|longest: Seq<char>| #[trigger] longest_match(readers, uri, longest),
    decreases uri.len() - prefix.len(),
{
    if !longest_match(readers, uri, prefix) {
        let longer = choose|longer: Seq<char>| #[trigger]
            readers.contains_key(longer) && longer.is_prefix_of(uri) && longer.len() > prefix.len();
        lemma_longest_match_exists(readers, uri, longer);
    }
}

/// A URI that begins with a newly registered prefix resolves to its handle,
/// unless a longer prefix of it is registered.
pub proof fn law_registered_handle_is_resolved<F>(
    readers: Readers<F>,
    prefix: Seq<char>,
    file_io: F,
    uri: Seq<char>,
)
    requires
        prefix.is_prefix_of(uri),
        forall|other: Seq<char>| #[trigger]
            readers.contains_key(other) && other.is_prefix_of(uri) ==> other.len() <= prefix.len(),
    ensures
        resolved(readers.insert(prefix, file_io), uri) == Some(file_io),
{
    let after = readers.insert(prefix, file_io);
    assert(longest_match(after, uri, prefix));
    law_longest_prefix_wins(after, uri, prefix);
}

/// A registration leaves alone every URI that does not begin with its prefix,
/// and every URI that resolves by a longer one.
pub proof fn law_other_uris_keep_their_handle<F>(
    readers: Readers<F>,
    prefix: Seq<char>,
    file_io: F,
    uri: Seq<char>,
)
    requires
        !prefix.is_prefix_of(uri) || exists|longer: Seq<char>| #[trigger]
            readers.contains_key(longer) && longer.is_prefix_of(uri) && longer.len() > prefix.len(),
    ensures
        resolved(readers.insert(prefix, file_io), uri) == resolved(readers, uri),
{
    let after = readers.insert(prefix, file_io);
    if prefix.is_prefix_of(uri) {
        let longer = choose|longer: Seq<char>| #[trigger]
            readers.contains_key(longer) && longer.is_prefix_of(uri) && longer.len() > prefix.len();
        lemma_longest_match_exists(readers, uri, longer);
        let longest = choose|longest: Seq<char>| #[trigger] longest_match(readers, uri, longest);
        assert(longest_match(after, uri, longest));
        law_longest_prefix_wins(readers, uri, longest);
        law_longest_prefix_wins(after, uri, longest);
    } else {
        law_resolves_where_a_prefix_matches(readers, uri);
        law_resolves_where_a_prefix_matches(after, uri);
        if resolved(readers, uri) is Some {
            let longest = choose|longest: Seq<char>| #[trigger] longest_match(readers, uri, longest);
            assert(longest_match(after, uri, longest));
            law_longest_prefix_wins(readers, uri, longest);
            law_longest_prefix_wins(after, uri, longest);
        } else if resolved(after, uri) is Some {
            let longest = choose|longest: Seq<char>| #[trigger] longest_match(after, uri, longest);
            assert(readers.contains_key(longest) && longest.is_prefix_of(uri));
        }
    }
}

/// Registrations of different prefixes may come in either order.
pub proof fn law_registration_order_does_not_matter<F>(
    readers: Readers<F>,
    prefix1: Seq<char>,
    file_io1: F,
    prefix2: Seq<char>,
    file_io2: F,
)
    requires
        prefix1 != prefix2,
    ensures
        readers.insert(prefix1, file_io1).insert(prefix2, file_io2) == readers.insert(
            prefix2,
            file_io2,
        ).insert(prefix1, file_io1),
{
    assert(readers.insert(prefix1, file_io1).insert(prefix2, file_io2) =~= readers.insert(
        prefix2,
        file_io2,
    ).insert(prefix1, file_io1));
}

/// A prefix keeps the handle it was registered with when a later one is only
/// to be taken where there is none, and gets the later one otherwise.
pub proof fn law_first_stays_or_last_wins<F>(
    readers: Readers<F>,
    prefix: Seq<char>,
    first: F,
    last: F,
)
    ensures
        with_default(readers.insert(prefix, first), prefix, last)[prefix] == first,
        with_default(with_default(readers, prefix, first), prefix, last) == with_default(
            readers,
            prefix,
            first,
        ),
        readers.insert(prefix, first).insert(prefix, last) == readers.insert(prefix, last),
{
    assert(readers.insert(prefix, first).insert(prefix, last) =~= readers.insert(prefix, last));
}

/// Of two prefixes of one URI, the longer in characters is the longer in
/// bytes, so that the longest match is the same by either measure.
pub proof fn law_longest_by_characters_is_longest_by_bytes(
    uri: Seq<char>,
    prefix1: Seq<char>,
    prefix2: Seq<char>,
)
    requires
        prefix1.is_prefix_of(uri),
        prefix2.is_prefix_of(uri),
    ensures
        prefix1.len() <= prefix2.len() <==> vstd::utf8::encode_utf8(prefix1).len()
            <= vstd::utf8::encode_utf8(prefix2).len(),
{
    if prefix1.len() <= prefix2.len() {
        lemma_longer_in_bytes(prefix1, prefix2);
    } else {
        lemma_longer_in_bytes(prefix2, prefix1);
    }
}

proof fn lemma_longer_in_bytes(text: Seq<char>, longer: Seq<char>)
    requires
        text.is_prefix_of(longer),
    ensures
        vstd::utf8::encode_utf8(text).len() <= vstd::utf8::encode_utf8(longer).len(),
        text.len() < longer.len() ==> vstd::utf8::encode_utf8(text).len()
            < vstd::utf8::encode_utf8(longer).len(),
{
    let rest = longer.skip(text.len() as int);
    assert(longer == text + rest);
    crate::byte_order::lemma_encode_concat(text, rest);
    if rest.len() > 0 {
        assert(vstd::utf8::encode_utf8(rest) == vstd::utf8::encode_scalar(rest[0] as u32)
            + vstd::utf8::encode_utf8(rest.drop_first()));
    }
}

} // verus!
