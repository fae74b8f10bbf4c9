//! NRO plugin images, the NRR that registers their hashes, and the table of
//! mounted plugins used to symbolise addresses.

use vstd::prelude::*;
use sha2::Digest as _;

use crate::pattern::le_word;

verus! {

// ---------------------------------------------------------------------------
// Mounted plugins
// ---------------------------------------------------------------------------

/// The plugins mounted so far, in mounting order: (name, module base, module base + image size).
pub struct LoadedPlugins {
    entries: Vec<(String, usize, usize)>,
}

/// The address range of an entry, as plain values.
pub open spec fn entry_view(e: (String, usize, usize)) -> (Seq<char>, usize, usize) {
    (e.0@, e.1, e.2)
}

/// Whether the entry's range `[start, end)` holds `addr`.
pub open spec fn entry_contains(e: (Seq<char>, usize, usize), addr: usize) -> bool {
    e.1 <= addr && addr < e.2
}

/// Index of the first entry whose range holds `addr`.
pub open spec fn first_containing(entries: Seq<(Seq<char>, usize, usize)>, addr: usize) -> Option<int>
    decreases entries.len(),
{
    if entries.len() == 0 {
        None
    } else if entry_contains(entries[0], addr) {
        Some(0)
    } else {
        match first_containing(entries.drop_first(), addr) {
            Some(i) => Some(i + 1),
            None => None,
        }
    }
}

/// The range of the first plugin that holds `addr`.
pub open spec fn containing_range(entries: Seq<(Seq<char>, usize, usize)>, addr: usize) -> Option<(usize, usize)> {
    match first_containing(entries, addr) {
        Some(i) => Some((entries[i].1, entries[i].2)),
        None => None,
    }
}

/// The name of the first plugin that holds `addr`, and the offset of `addr` in it.
pub open spec fn plugin_location(entries: Seq<(Seq<char>, usize, usize)>, addr: usize) -> Option<(Seq<char>, usize)> {
    match first_containing(entries, addr) {
        Some(i) => Some((entries[i].0, (addr - entries[i].1) as usize)),
        None => None,
    }
}

impl View for LoadedPlugins {
    type V = Seq<(Seq<char>, usize, usize)>;

    closed spec fn view(&self) -> Self::V {
        self.entries@.map_values(|e: (String, usize, usize)| entry_view(e))
    }
}

pub(crate) proof fn lemma_first_containing_bounds(entries: Seq<(Seq<char>, usize, usize)>, addr: usize)
    ensures
        first_containing(entries, addr) matches Some(i) ==> 0 <= i < entries.len() && entry_contains(
            entries[i],
            addr,
        ) && forall|k: int| 0 <= k < i ==> !entry_contains(#[trigger] entries[k], addr),
        first_containing(entries, addr) is None ==> forall|k: int|
            0 <= k < entries.len() ==> !entry_contains(#[trigger] entries[k], addr),
    decreases entries.len(),
{
    if entries.len() > 0 {
        lemma_first_containing_bounds(entries.drop_first(), addr);
        assert forall|k: int| 1 <= k < entries.len() implies #[trigger] entries[k] == entries.drop_first()[k
            - 1] by {}
    }
}

/// `first_containing` is the least index whose range holds the address.
pub(crate) proof fn lemma_first_containing_least(entries: Seq<(Seq<char>, usize, usize)>, addr: usize, i: int)
    requires
        0 <= i < entries.len(),
        entry_contains(entries[i], addr),
        forall|k: int| 0 <= k < i ==> !entry_contains(#[trigger] entries[k], addr),
    ensures
        first_containing(entries, addr) == Some(i),
    decreases entries.len(),
{
    if i > 0 {
        assert forall|k: int| 0 <= k < i - 1 implies !entry_contains(#[trigger] entries.drop_first()[k], addr) by {
            assert(entries.drop_first()[k] == entries[k + 1]);
        }
        lemma_first_containing_least(entries.drop_first(), addr, i - 1);
    }
}

impl LoadedPlugins {
    /// An empty table.
    pub fn new() -> (plugins: Self)
        ensures
            plugins@ == Seq::<(Seq<char>, usize, usize)>::empty(),
    {
        let plugins = LoadedPlugins { entries: Vec::new() };
        assert(plugins@ =~= Seq::<(Seq<char>, usize, usize)>::empty());
        plugins
    }

    /// Records a plugin mounted at `base` whose image is `image_size` bytes long.
    pub fn record(&mut self, name: String, base: usize, image_size: usize)
        requires
            base + image_size <= usize::MAX,
        ensures
            final(self)@ == old(self)@.push((name@, base, (base + image_size) as usize)),
    {
        let ghost before = self.entries@;
        self.entries.push((name, base, base + image_size));
        assert(self@ =~= old(self)@.push((name@, base, (base + image_size) as usize))) by {
            assert(self.entries@ == before.push((name, base, (base + image_size) as usize)));
        }
    }

    /// Index of the first plugin that holds `addr`.
    fn find(&self, addr: usize) -> (index: Option<usize>)
        ensures
            index matches Some(i) ==> first_containing(self@, addr) == Some(i as int) && i < self.entries@.len(),
            index is None ==> first_containing(self@, addr) is None,
    {
        let n = self.entries.len();
        let mut i: usize = 0;
        while i < n
            invariant
                n == self.entries@.len(),
                n == self@.len(),
                i <= n,
                forall|k: int| 0 <= k < i ==> !entry_contains(#[trigger] self@[k], addr),
            decreases n - i,
        {
            let start = self.entries[i].1;
            let end = self.entries[i].2;
            assert(self@[i as int] == entry_view(self.entries@[i as int]));
            if start <= addr && addr < end {
                proof {
                    lemma_first_containing_least(self@, addr, i as int);
                }
                return Some(i);
            }
            i = i + 1;
        }
        proof {
            lemma_first_containing_bounds(self@, addr);
            if first_containing(self@, addr) is Some {
                let j = first_containing(self@, addr).unwrap();
                assert(!entry_contains(self@[j], addr));
            }
        }
        None
    }
}

/// Returns the (start, end) range of the mounted plugin that contains `addr`, if any.
pub fn containing_plugin(plugins: &LoadedPlugins, addr: usize) -> (range: Option<(usize, usize)>)
    ensures
        range == containing_range(plugins@, addr),
{
    match plugins.find(addr) {
        Some(i) => {
            assert(plugins@[i as int] == entry_view(plugins.entries@[i as int]));
            Some((plugins.entries[i].1, plugins.entries[i].2))
        },
        None => None,
    }
}

/// Returns the name of the mounted plugin that contains `addr` and the offset of `addr`
/// in it, if any.
pub fn plugin_for_address(plugins: &LoadedPlugins, addr: usize) -> (location: Option<(String, usize)>)
    ensures
        location matches Some(l) ==> plugin_location(plugins@, addr) == Some((l.0@, l.1)),
        location is None ==> plugin_location(plugins@, addr) is None,
{
    match plugins.find(addr) {
        Some(i) => {
            assert(plugins@[i as int] == entry_view(plugins.entries@[i as int]));
            proof {
                lemma_first_containing_bounds(plugins@, addr);
            }
            let name = plugins.entries[i].0.clone();
            Some((name, addr - plugins.entries[i].1))
        },
        None => None,
    }
}

/// The range lookup and the name lookup agree: an address has a location exactly when it
/// lies in a plugin's range, and its offset is measured from the start of that range.
pub proof fn law_location_within_range(plugins: Seq<(Seq<char>, usize, usize)>, addr: usize)
    ensures
        plugin_location(plugins, addr) is Some <==> containing_range(plugins, addr) is Some,
        containing_range(plugins, addr) matches Some(r) ==> r.0 <= addr < r.1
            && plugin_location(plugins, addr).unwrap().1 == addr - r.0,
{
    lemma_first_containing_bounds(plugins, addr);
}

/// After a plugin is recorded, every address in its range that no earlier plugin holds
/// is reported in it, at its offset from the base.
pub proof fn law_recorded_plugin_found(
    plugins: Seq<(Seq<char>, usize, usize)>,
    name: Seq<char>,
    base: usize,
    end: usize,
    addr: usize,
)
    requires
        base <= addr < end,
        containing_range(plugins, addr) is None,
    ensures
        plugin_location(plugins.push((name, base, end)), addr) == Some((name, (addr - base) as usize)),
        containing_range(plugins.push((name, base, end)), addr) == Some((base, end)),
{
    let all = plugins.push((name, base, end));
    lemma_first_containing_bounds(plugins, addr);
    assert forall|k: int| 0 <= k < plugins.len() implies !entry_contains(#[trigger] all[k], addr) by {
        assert(all[k] == plugins[k]);
    }
    lemma_first_containing_least(all, addr, plugins.len() as int);
}


/// The bytes of `name` that a NUL-terminated name field of `capacity` bytes holds: as many
/// as fit with room left for the terminator.
pub fn module_name_field(name: &str, capacity: usize) -> (bytes: Vec<u8>)
    requires
        capacity >= 1,
    ensures
        bytes@ == vstd::utf8::encode_utf8(name@).take(
            if vstd::utf8::encode_utf8(name@).len() < capacity - 1 { vstd::utf8::encode_utf8(name@).len() as int } else { capacity - 1 },
        ),
{
    let raw = name.as_bytes();
    let n = if raw.len() < capacity - 1 { raw.len() } else { capacity - 1 };
    let out = slice_copy(raw, 0, n);
    assert(raw@.subrange(0, n as int) == raw@.take(n as int));
    out
}

// ---------------------------------------------------------------------------
// Errors
// ---------------------------------------------------------------------------

#[verifier::external_type_specification]
#[verifier::external_body]
pub struct ExIoError(std::io::Error);

/// Why an NRO could not be read, registered or mounted.
#[derive(Debug)]
pub enum LoaderError {
    IO(std::io::Error),
    RegistrationError(u32),
    MountError(u32),
    InvalidModuleBuffer(u32),
    EmptyImage,
}

// ---------------------------------------------------------------------------
// Hashes
// ---------------------------------------------------------------------------

/// SHA-256 digest of `data`, as computed by the `sha2` crate.
pub uninterp spec fn sha256(data: Seq<u8>) -> Seq<u8>;

/// Calls `sha2::Sha256::digest`. The contract claims only that the 32 bytes it returns
/// are the digest named `sha256` of the input.
#[verifier::external_body]
fn sha256_digest(data: &[u8]) -> (digest: [u8; 32])
    ensures
        digest@ == sha256(data@),
{
    sha2::Sha256::digest(data).into()
}

/// A SHA-256 digest, as listed in an NRR.
#[derive(Copy, Clone, PartialEq, Eq, PartialOrd, Ord, Debug)]
pub struct Sha256Hash([u8; 32]);

impl View for Sha256Hash {
    type V = Seq<u8>;

    closed spec fn view(&self) -> Seq<u8> {
        self.0@
    }
}

impl Sha256Hash {
    /// Hashes `data`.
    pub fn new(data: &[u8]) -> (hash: Self)
        ensures
            hash@ == sha256(data@),
    {
        Sha256Hash(sha256_digest(data))
    }

    /// The 32 bytes of the digest.
    pub fn to_bytes(&self) -> (bytes: [u8; 32])
        ensures
            bytes@ == self@,
    {
        self.0
    }
}

/// Whether `a` comes before `b` byte by byte (the order of `Sha256Hash`'s derived `Ord`).
pub open spec fn lex_less(a: Seq<u8>, b: Seq<u8>) -> bool {
    exists|k: int|
        0 <= k < a.len() && k < b.len() && a[k] < b[k] && (forall|j: int| 0 <= j < k ==> a[j] == b[j])
}

proof fn lemma_lex_less_transitive(a: Seq<u8>, b: Seq<u8>, c: Seq<u8>)
    requires
        lex_less(a, b),
        lex_less(b, c),
    ensures
        lex_less(a, c),
{
    let k1 = choose|k: int|
        0 <= k < a.len() && k < b.len() && a[k] < b[k] && (forall|j: int| 0 <= j < k ==> a[j] == b[j]);
    let k2 = choose|k: int|
        0 <= k < b.len() && k < c.len() && b[k] < c[k] && (forall|j: int| 0 <= j < k ==> b[j] == c[j]);
    let k = if k1 < k2 { k1 } else { k2 };
    assert(0 <= k < a.len() && k < c.len() && a[k] < c[k] && (forall|j: int| 0 <= j < k ==> a[j] == c[j]));
}

proof fn lemma_lex_less_irreflexive(a: Seq<u8>)
    ensures
        !lex_less(a, a),
{
}

proof fn lemma_lex_less_asymmetric(a: Seq<u8>, b: Seq<u8>)
    requires
        lex_less(a, b),
    ensures
        !lex_less(b, a),
{
    if lex_less(b, a) {
        lemma_lex_less_transitive(a, b, a);
    }
}

proof fn lemma_sorted_drop_first(s: Seq<Seq<u8>>)
    requires
        strictly_sorted(s),
        s.len() > 0,
    ensures
        strictly_sorted(s.drop_first()),
        s.drop_first().to_set() == s.to_set().remove(s[0]),
        forall|x: Seq<u8>| #[trigger] s.drop_first().to_set().contains(x) ==> lex_less(s[0], x),
{
    let t = s.drop_first();
    assert forall|i: int, j: int| 0 <= i < j < t.len() implies lex_less(#[trigger] t[i], #[trigger] t[j]) by {
        assert(t[i] == s[i + 1] && t[j] == s[j + 1]);
    }
    assert forall|x: Seq<u8>| #[trigger] t.to_set().contains(x) implies lex_less(s[0], x) by {
        let k = choose|k: int| 0 <= k < t.len() && t[k] == x;
        assert(s[k + 1] == x);
    }
    assert forall|x: Seq<u8>| t.to_set().contains(x) <==> #[trigger] s.to_set().remove(s[0]).contains(x) by {
        if t.to_set().contains(x) {
            let k = choose|k: int| 0 <= k < t.len() && t[k] == x;
            assert(s[k + 1] == x);
            lemma_lex_less_irreflexive(s[0]);
        }
        if s.to_set().remove(s[0]).contains(x) {
            let k = choose|k: int| 0 <= k < s.len() && s[k] == x;
            assert(k != 0);
            assert(t[k - 1] == x);
        }
    }
    assert(t.to_set() =~= s.to_set().remove(s[0]));
}

/// A list of hashes in strictly increasing order is determined by the set of its hashes:
/// the NRR built from a set of NROs does not depend on the order in which they were
/// registered, nor on how often each was.
pub proof fn law_sorted_list_determined(a: Seq<Seq<u8>>, b: Seq<Seq<u8>>)
    requires
        strictly_sorted(a),
        strictly_sorted(b),
        a.to_set() == b.to_set(),
    ensures
        a == b,
    decreases a.len(),
{
    if a.len() == 0 {
        if b.len() > 0 {
            assert(b.to_set().contains(b[0]));
        }
        assert(a =~= b);
    } else {
        assert(a.to_set().contains(a[0]));
        assert(b.len() > 0);
        assert(b.to_set().contains(b[0]));
        if a[0] != b[0] {
            let i = choose|i: int| 0 <= i < a.len() && a[i] == b[0];
            let j = choose|j: int| 0 <= j < b.len() && b[j] == a[0];
            assert(i > 0 && j > 0);
            assert(lex_less(a[0], a[i]));
            assert(lex_less(b[0], b[j]));
            lemma_lex_less_asymmetric(a[0], b[0]);
        }
        lemma_sorted_drop_first(a);
        lemma_sorted_drop_first(b);
        law_sorted_list_determined(a.drop_first(), b.drop_first());
        assert(a =~= seq![a[0]] + a.drop_first());
        assert(b =~= seq![b[0]] + b.drop_first());
    }
}

/// Three-way comparison of two digests, in the order of `lex_less`.
fn compare_hashes(a: &Sha256Hash, b: &Sha256Hash) -> (order: i8)
    ensures
        order < 0 <==> lex_less(a@, b@),
        order > 0 <==> lex_less(b@, a@),
        order == 0 <==> a@ == b@,
{
    let mut i: usize = 0;
    while i < 32
        invariant
            i <= 32,
            a@.len() == 32,
            b@.len() == 32,
            a@ == a.0@,
            b@ == b.0@,
            forall|j: int| 0 <= j < i ==> a@[j] == b@[j],
        decreases 32 - i,
    {
        if a.0[i] < b.0[i] {
            assert(!lex_less(b@, a@)) by {
                if lex_less(b@, a@) {
                    let k = choose|k: int|
                        0 <= k < b@.len() && k < a@.len() && b@[k] < a@[k] && (forall|j: int|
                            0 <= j < k ==> b@[j] == a@[j]);
                    if k < i {
                    } else if k > i {
                        assert(b@[i as int] == a@[i as int]);
                    }
                }
            }
            assert(lex_less(a@, b@));
            return -1;
        }
        if a.0[i] > b.0[i] {
            assert(!lex_less(a@, b@)) by {
                if lex_less(a@, b@) {
                    let k = choose|k: int|
                        0 <= k < a@.len() && k < b@.len() && a@[k] < b@[k] && (forall|j: int|
                            0 <= j < k ==> a@[j] == b@[j]);
                    if k < i {
                    } else if k > i {
                        assert(b@[i as int] == a@[i as int]);
                    }
                }
            }
            assert(lex_less(b@, a@));
            return 1;
        }
        i = i + 1;
    }
    assert(a@ =~= b@);
    0
}

// ---------------------------------------------------------------------------
// NRR
// ---------------------------------------------------------------------------

/// Size in bytes of an NRR header; the hash list follows it.
pub const NRR_HEADER_SIZE: usize = 0x350;

/// `"NRR0"`, the magic of an NRR header.
pub const NRR_MAGIC: u32 = 0x3052524E;

/// Whether `hashes` is in strictly increasing order, hence free of duplicates.
pub open spec fn strictly_sorted(hashes: Seq<Seq<u8>>) -> bool {
    forall|i: int, j: int| 0 <= i < j < hashes.len() ==> lex_less(#[trigger] hashes[i], #[trigger] hashes[j])
}

/// The size of an NRR image holding `count` hashes: header and hashes, rounded up to a page.
pub open spec fn nrr_image_size(count: int) -> int {
    ((NRR_HEADER_SIZE + count * 32 + 0xFFF) / 0x1000) * 0x1000
}

/// The views of a list of hashes.
pub open spec fn hash_views(hashes: Seq<Sha256Hash>) -> Seq<Seq<u8>> {
    hashes.map_values(|h: Sha256Hash| h@)
}

/// Collects the hashes of the NROs to be registered in one NRR.
pub struct NrrBuilder(Vec<Sha256Hash>);

/// The header fields and hash list of an NRR, ready to be written out.
pub struct NrrImage {
    pub magic: u32,
    pub program_id: u64,
    pub size: u32,
    pub kind: u8,
    pub hashes_offset: u32,
    pub num_hashes: u32,
    pub hashes: Vec<Sha256Hash>,
}

impl View for NrrBuilder {
    type V = Seq<Seq<u8>>;

    closed spec fn view(&self) -> Seq<Seq<u8>> {
        hash_views(self.0@)
    }
}

impl NrrBuilder {
    /// A builder with no hash.
    pub fn new() -> (builder: Self)
        ensures
            builder@ == Seq::<Seq<u8>>::empty(),
    {
        let b = Self(Vec::new());
        assert(b@ =~= Seq::<Seq<u8>>::empty());
        b
    }

    /// Adds the hash of `nro`.
    pub fn register_nro(&mut self, nro: &NroFile)
        ensures
            final(self)@ == old(self)@.push(sha256(nro@.image)),
    {
        let hash = nro.hash();
        self.0.push(hash);
        assert(self@ =~= old(self)@.push(sha256(nro@.image)));
    }

    /// Lays out the NRR: the hashes sorted and without duplicates (the loader refuses
    /// both), the image size rounded up to a page, and the header fields for `program_id`.
    pub fn build(self, program_id: u64) -> (image: NrrImage)
        requires
            NRR_HEADER_SIZE + self@.len() * 32 + 0xFFF <= usize::MAX,
        ensures
            strictly_sorted(hash_views(image.hashes@)),
            hash_views(image.hashes@).to_set() == self@.to_set(),
            image.magic == NRR_MAGIC,
            image.program_id == program_id,
            image.size as int == nrr_image_size(image.hashes@.len() as int) % 0x1_0000_0000,
            image.kind == 0,
            image.hashes_offset == NRR_HEADER_SIZE,
            image.num_hashes as int == image.hashes@.len() % 0x1_0000_0000,
    {
        let hashes = sorted_unique(&self.0);
        let count = hashes.len();
        assert(count <= self@.len());
        let unaligned = NRR_HEADER_SIZE + count * 32;
        let size = align_up_page(unaligned);
        NrrImage {
            magic: NRR_MAGIC,
            program_id,
            size: (size as u64 % 0x1_0000_0000) as u32,
            kind: 0,
            hashes_offset: NRR_HEADER_SIZE as u32,
            num_hashes: (count as u64 % 0x1_0000_0000) as u32,
            hashes,
        }
    }
}

/// Rounds `x` up to a multiple of 0x1000.
fn align_up_page(x: usize) -> (aligned: usize)
    requires
        x + 0xFFF <= usize::MAX,
    ensures
        aligned as int == ((x + 0xFFF) / 0x1000) * 0x1000,
{
    let y = x + 0xFFF;
    let aligned = y & !0xFFFusize;
    assert(aligned == (y / 0x1000) * 0x1000) by (bit_vector)
        requires aligned == y & !0xFFFusize;
    aligned
}

/// `hashes` sorted in increasing order with duplicates removed.
fn sorted_unique(hashes: &Vec<Sha256Hash>) -> (out: Vec<Sha256Hash>)
    ensures
        strictly_sorted(hash_views(out@)),
        hash_views(out@).to_set() == hash_views(hashes@).to_set(),
        out@.len() <= hashes@.len(),
{
    let mut out: Vec<Sha256Hash> = Vec::new();
    let n = hashes.len();
    let mut i: usize = 0;
    while i < n
        invariant
            n == hashes@.len(),
            i <= n,
            out@.len() <= i,
            strictly_sorted(hash_views(out@)),
            hash_views(out@).to_set() == hash_views(hashes@.take(i as int)).to_set(),
        decreases n - i,
    {
        let h = hashes[i];
        let ghost before = out@;
        // first position whose hash does not come before `h`
        let mut p: usize = 0;
        let mut duplicate = false;
        let mut stop = false;
        while !stop && p < out.len()
            invariant
                out@ == before,
                p <= out@.len(),
                duplicate ==> stop && p < out@.len() && hash_views(out@)[p as int] == h@,
                stop && !duplicate ==> p < out@.len() && lex_less(h@, hash_views(out@)[p as int]),
                forall|k: int| 0 <= k < p ==> lex_less(#[trigger] hash_views(out@)[k], h@),
            decreases out@.len() - p + (if stop { 0int } else { 1int }),
        {
            let c = compare_hashes(&out[p], &h);
            if c == 0 {
                duplicate = true;
                stop = true;
            } else if c > 0 {
                stop = true;
            } else {
                p = p + 1;
            }
        }
        assert(hashes@.take(i + 1) == hashes@.take(i as int).push(h));
        assert(hash_views(hashes@.take(i + 1)) == hash_views(hashes@.take(i as int)).push(h@));
        if duplicate {
            assert(hash_views(out@)[p as int] == h@);
            assert(hash_views(out@).to_set() == hash_views(hashes@.take(i + 1)).to_set()) by {
                hash_views(hashes@.take(i as int)).lemma_push_to_set_commute(h@);
                assert(hash_views(out@).to_set().contains(h@));
                assert(hash_views(out@).to_set().insert(h@) =~= hash_views(out@).to_set());
            }
        } else {
            out.insert(p, h);
            assert(hash_views(out@) =~= hash_views(before).insert(p as int, h@));
            assert(strictly_sorted(hash_views(out@))) by {
                let v = hash_views(out@);
                let w = hash_views(before);
                assert forall|a: int, b: int| 0 <= a < b < v.len() implies lex_less(
                    #[trigger] v[a],
                    #[trigger] v[b],
                ) by {
                    if b < p {
                        assert(v[a] == w[a] && v[b] == w[b]);
                    } else if b == p {
                        assert(v[a] == w[a]);
                    } else if a == p {
                        assert(v[b] == w[b - 1]);
                        if b - 1 > p {
                            assert(lex_less(w[p as int], w[b - 1]));
                            lemma_lex_less_transitive(h@, w[p as int], w[b - 1]);
                        }
                    } else if a < p {
                        assert(v[a] == w[a] && v[b] == w[b - 1]);
                        if b - 1 >= p {
                            assert(lex_less(w[a], h@));
                            if b - 1 > p {
                                assert(lex_less(w[p as int], w[b - 1]));
                                lemma_lex_less_transitive(h@, w[p as int], w[b - 1]);
                            }
                            lemma_lex_less_transitive(w[a], h@, w[b - 1]);
                        }
                    } else {
                        assert(v[a] == w[a - 1] && v[b] == w[b - 1]);
                    }
                }
            }
            assert(hash_views(out@).to_set() == hash_views(hashes@.take(i + 1)).to_set()) by {
                assert(hash_views(out@).to_set() =~= hash_views(before).to_set().insert(h@)) by {
                    let v = hash_views(out@);
                    let w = hash_views(before);
                    assert forall|x: Seq<u8>| v.contains(x) implies w.to_set().insert(h@).contains(x) by {
                        let k = choose|k: int| 0 <= k < v.len() && v[k] == x;
                        if k < p {
                            assert(w[k] == x);
                        } else if k > p {
                            assert(w[k - 1] == x);
                        }
                    }
                    assert forall|x: Seq<u8>| w.to_set().insert(h@).contains(x) implies v.contains(x) by {
                        if x == h@ {
                            assert(v[p as int] == x);
                        } else {
                            let k = choose|k: int| 0 <= k < w.len() && w[k] == x;
                            if k < p {
                                assert(v[k] == x);
                            } else {
                                assert(v[k + 1] == x);
                            }
                        }
                    }
                }
                hash_views(hashes@.take(i as int)).lemma_push_to_set_commute(h@);
            }
        }
        i = i + 1;
    }
    assert(hashes@.take(n as int) == hashes@);
    out
}

// ---------------------------------------------------------------------------
// NRO files
// ---------------------------------------------------------------------------

/// An NRO image read into memory, with the module name it will be mounted under.
pub struct NroFile {
    image: Vec<u8>,
    name: String,
}

/// The contents of an `NroFile`.
pub struct NroView {
    pub image: Seq<u8>,
    pub name: Seq<char>,
}

impl View for NroFile {
    type V = NroView;

    closed spec fn view(&self) -> NroView {
        NroView { image: self.image@, name: self.name@ }
    }
}

/// The 32-bit little-endian word at offset `off` of `b`.
pub fn u32_at(b: &[u8], off: usize) -> (word: u32)
    requires
        off + 4 <= b@.len(),
    ensures
        word == le_word(b@, off as int),
{
    b[off] as u32 + b[off + 1] as u32 * 0x100 + b[off + 2] as u32 * 0x10000 + b[off + 3] as u32 * 0x1000000
}

/// Text decoded from `bytes` by `String::from_utf8_lossy`.
pub uninterp spec fn lossy_utf8(bytes: Seq<u8>) -> Seq<char>;

/// Calls `String::from_utf8_lossy` and takes ownership of the text. Its result is named
/// `lossy_utf8`; the contract also claims, as std documents, that valid UTF-8 is decoded
/// as is. What replaces invalid sequences is left unsaid.
#[verifier::external_body]
pub(crate) fn utf8_lossy(bytes: &[u8]) -> (text: String)
    ensures
        text@ == lossy_utf8(bytes@),
        vstd::utf8::valid_utf8(bytes@) ==> text@ == vstd::utf8::decode_utf8(bytes@),
{
    String::from_utf8_lossy(bytes).into_owned()
}

/// The bytes of `s` before its first NUL, or all of them.
pub open spec fn until_nul(s: Seq<u8>) -> Seq<u8>
    decreases s.len(),
{
    if s.len() == 0 || s[0] == 0 {
        Seq::<u8>::empty()
    } else {
        seq![s[0]] + until_nul(s.drop_first())
    }
}

/// Whether the NRO header magic `NRO0` is at offset 0x10.
pub open spec fn has_nro_magic(nro: Seq<u8>) -> bool {
    &&& nro.len() >= 0x14
    &&& nro[0x10] == 0x4E
    &&& nro[0x11] == 0x52
    &&& nro[0x12] == 0x4F
    &&& nro[0x13] == 0x30
}

/// Whether reading the module name of `nro` stays in bounds: an image with the NRO magic
/// holds the whole segment table up to the rodata entry.
pub open spec fn nro_header_readable(nro: Seq<u8>) -> bool {
    has_nro_magic(nro) ==> nro.len() >= 0x30
}

/// The bytes of the `.nx-module-name` entry at the start of the rodata segment of `nro`
/// (up to its first NUL), if the image has the NRO magic and the entry lies within it.
pub open spec fn nro_name_bytes(nro: Seq<u8>) -> Option<Seq<u8>> {
    if !has_nro_magic(nro) {
        None
    } else {
        let ro_off = le_word(nro, 0x28) as int;
        let ro_size = le_word(nro, 0x2C) as int;
        if ro_off + ro_size > nro.len() || ro_size < 8 {
            None
        } else {
            let ro = nro.subrange(ro_off, ro_off + ro_size);
            let len = le_word(ro, 4) as int;
            if 8 + len > ro.len() {
                None
            } else {
                Some(until_nul(ro.subrange(8, 8 + len)))
            }
        }
    }
}

proof fn lemma_until_nul(s: Seq<u8>)
    ensures
        until_nul(s).len() <= s.len(),
        until_nul(s) == s.take(until_nul(s).len() as int),
        forall|i: int| 0 <= i < until_nul(s).len() ==> #[trigger] s[i] != 0,
        until_nul(s).len() < s.len() ==> s[until_nul(s).len() as int] == 0,
    decreases s.len(),
{
    if s.len() > 0 && s[0] != 0 {
        let rest = s.drop_first();
        lemma_until_nul(rest);
        assert forall|i: int| 0 <= i < until_nul(s).len() implies #[trigger] s[i] != 0 by {
            if i > 0 {
                assert(s[i] == rest[i - 1]);
            }
        }
        assert(until_nul(s) =~= s.take(until_nul(s).len() as int));
    } else {
        assert(until_nul(s) =~= s.take(0));
    }
}

/// The module name never reaches past the length its `.nx-module-name` entry declares: it is
/// the bytes of the entry (at offset 8 of the rodata segment whose offset is at 0x28) up to
/// that length or to the first NUL before it, whichever comes first.
pub proof fn law_nro_name_within_entry(nro: Seq<u8>)
    ensures
        match nro_name_bytes(nro) {
            Some(b) => {
                let start = le_word(nro, 0x28) + 8;
                let len = le_word(nro, le_word(nro, 0x28) + 4);
                &&& b.len() <= len
                &&& start + len <= nro.len()
                &&& b == nro.subrange(start, start + b.len())
                &&& forall|i: int| 0 <= i < b.len() ==> #[trigger] b[i] != 0
                &&& b.len() < len ==> nro[start + b.len()] == 0
            },
            None => true,
        },
{
    if let Some(b) = nro_name_bytes(nro) {
        let ro_off = le_word(nro, 0x28) as int;
        let ro_size = le_word(nro, 0x2C) as int;
        let ro = nro.subrange(ro_off, ro_off + ro_size);
        assert(le_word(ro, 4) == le_word(nro, ro_off + 4));
        let len = le_word(ro, 4) as int;
        let entry = ro.subrange(8, 8 + len);
        lemma_until_nul(entry);
        assert(entry =~= nro.subrange(ro_off + 8, ro_off + 8 + len));
        assert(b =~= nro.subrange(ro_off + 8, ro_off + 8 + b.len()));
        if b.len() < len {
            assert(entry[b.len() as int] == nro[ro_off + 8 + b.len()]);
        }
    }
}

/// Length of the prefix of `s` before its first NUL.
pub(crate) fn nul_prefix_len(s: &[u8], from: usize, to: usize) -> (len: usize)
    requires
        from <= to <= s@.len(),
    ensures
        s@.subrange(from as int, (from + len) as int) == until_nul(s@.subrange(from as int, to as int)),
        from + len <= to,
        from + len < to ==> s@[from + len] == 0,
        forall|i: int| from <= i < from + len ==> s@[i] != 0,
{
    let mut j = from;
    // scan forward for the first NUL
    while j < to && s[j] != 0
        invariant
            from <= j <= to <= s@.len(),
            until_nul(s@.subrange(from as int, to as int)) == s@.subrange(from as int, j as int) + until_nul(
                s@.subrange(j as int, to as int),
            ),
            forall|i: int| from <= i < j ==> s@[i] != 0,
        decreases to - j,
    {
        let ghost rest = s@.subrange(j as int, to as int);
        assert(rest.drop_first() == s@.subrange(j + 1, to as int));
        assert(s@.subrange(from as int, j + 1) == s@.subrange(from as int, j as int) + seq![s@[j as int]]);
        j = j + 1;
    }
    assert(until_nul(s@.subrange(j as int, to as int)) == Seq::<u8>::empty());
    assert(s@.subrange(from as int, j as int) + Seq::<u8>::empty() == s@.subrange(from as int, j as int));
    j - from
}

/// Reads the module name that an NRO carries in its `.nx-module-name` rodata entry.
pub fn nro_module_name(nro: &[u8]) -> (name: Option<String>)
    requires
        nro_header_readable(nro@),
    ensures
        match nro_name_bytes(nro@) {
            Some(bytes) => name matches Some(n) && n@ == lossy_utf8(bytes),
            None => name is None,
        },
        match nro_name_bytes(nro@) {
            Some(bytes) => vstd::utf8::valid_utf8(bytes) ==> (name matches Some(n) && n@
                == vstd::utf8::decode_utf8(bytes)),
            None => true,
        },
{
    if nro.len() < 0x14 || nro[0x10] != 0x4E || nro[0x11] != 0x52 || nro[0x12] != 0x4F || nro[0x13] != 0x30 {
        return None;
    }
    let ro_off = u32_at(nro, 0x28) as usize;
    let ro_size = u32_at(nro, 0x2C) as usize;
    if ro_off > nro.len() || ro_size > nro.len() - ro_off || ro_size < 8 {
        return None;
    }
    let ghost ro = nro@.subrange(ro_off as int, ro_off + ro_size);
    let len = u32_at(nro, ro_off + 4) as usize;
    assert(le_word(ro, 4) == le_word(nro@, ro_off + 4));
    if len > ro_size - 8 {
        return None;
    }
    let start = ro_off + 8;
    let k = nul_prefix_len(nro, start, start + len);
    assert(ro.subrange(8, 8 + len) == nro@.subrange(start as int, start + len));
    let bytes = slice_copy(nro, start, start + k);
    Some(utf8_lossy(bytes.as_slice()))
}

/// A copy of `s[from..to]`.
pub(crate) fn slice_copy(s: &[u8], from: usize, to: usize) -> (out: Vec<u8>)
    requires
        from <= to <= s@.len(),
    ensures
        out@ == s@.subrange(from as int, to as int),
{
    let mut out: Vec<u8> = Vec::new();
    let mut i = from;
    while i < to
        invariant
            from <= i <= to <= s@.len(),
            out@ == s@.subrange(from as int, i as int),
        decreases to - i,
    {
        out.push(s[i]);
        assert(s@.subrange(from as int, i + 1) == s@.subrange(from as int, i as int).push(s@[i as int]));
        i = i + 1;
    }
    out
}

/// Offset of the MOD header of an NRO, read from its header at offset 4.
pub open spec fn mod_header_offset(image: Seq<u8>) -> int {
    le_word(image, 4) as int
}

/// Whether `fix_bss_size` reads and writes within the image: the MOD header offset is
/// readable, the MOD header's words up to the module object offset are in the image, and
/// the grown bss end still fits in 32 bits.
pub open spec fn bss_fix_in_bounds(image: Seq<u8>) -> bool {
    &&& image.len() >= 8
    &&& mod_header_offset(image) + 0x38 <= image.len()
    &&& (le_word(image, mod_header_offset(image) + 0x24) == le_word(image, mod_header_offset(image) + 0x34)
        ==> le_word(image, mod_header_offset(image) + 0x24) + 0xD0 <= u32::MAX)
}

/// The four bytes of `v`, least significant first.
pub open spec fn le_bytes(v: u32) -> Seq<u8> {
    seq![(v % 0x100) as u8, ((v / 0x100) % 0x100) as u8, ((v / 0x10000) % 0x100) as u8, (v / 0x1000000) as u8]
}

/// The image after the bss fix: when the bss end offset of the MOD header equals its module
/// object offset, the bss end grows by 0xD0 bytes; otherwise the image is unchanged.
pub open spec fn bss_fixed(image: Seq<u8>) -> Seq<u8> {
    let at = mod_header_offset(image) + 0x24;
    let bss_end = le_word(image, at);
    if bss_end == le_word(image, mod_header_offset(image) + 0x34) {
        image.subrange(0, at) + le_bytes((bss_end + 0xD0) as u32) + image.subrange(at + 4, image.len() as int)
    } else {
        image
    }
}

proof fn lemma_le_word_bytes(image: Seq<u8>, at: int, v: u32)
    requires
        0 <= at,
        at + 4 <= image.len(),
    ensures
        ({
            let w = image.subrange(0, at) + le_bytes(v) + image.subrange(at + 4, image.len() as int);
            &&& w.len() == image.len()
            &&& le_word(w, at) == v
            &&& forall|i: int| 0 <= i < image.len() && (i < at || i >= at + 4) ==> #[trigger] w[i] == image[i]
        }),
{
    let w = image.subrange(0, at) + le_bytes(v) + image.subrange(at + 4, image.len() as int);
    assert(w[at] == (v % 0x100) as u8);
    assert(w[at + 1] == ((v / 0x100) % 0x100) as u8);
    assert(w[at + 2] == ((v / 0x10000) % 0x100) as u8);
    assert(w[at + 3] == (v / 0x1000000) as u8);
    let b0 = (v % 0x100) as u8;
    let b1 = ((v / 0x100) % 0x100) as u8;
    let b2 = ((v / 0x10000) % 0x100) as u8;
    let b3 = (v / 0x1000000) as u8;
    assert(b0 as int + b1 as int * 0x100 + b2 as int * 0x10000 + b3 as int * 0x1000000 == v) by (nonlinear_arith)
        requires
            b0 == v % 0x100,
            b1 == (v / 0x100) % 0x100,
            b2 == (v / 0x10000) % 0x100,
            b3 == v / 0x1000000,
    ;
}

/// The bss fix is done once: applying it to an image it was already applied to changes
/// nothing.
pub proof fn law_bss_fix_idempotent(image: Seq<u8>)
    requires
        bss_fix_in_bounds(image),
    ensures
        bss_fixed(bss_fixed(image)) == bss_fixed(image),
{
    let m = mod_header_offset(image);
    let at = m + 0x24;
    let bss_end = le_word(image, at);
    if bss_end == le_word(image, m + 0x34) {
        let v = (bss_end + 0xD0) as u32;
        lemma_le_word_bytes(image, at, v);
        let w = bss_fixed(image);
        assert(w[4] == image[4] && w[5] == image[5] && w[6] == image[6] && w[7] == image[7]);
        assert(mod_header_offset(w) == m);
        assert(w[m + 0x34] == image[m + 0x34] && w[m + 0x35] == image[m + 0x35] && w[m + 0x36] == image[m
            + 0x36] && w[m + 0x37] == image[m + 0x37]);
        assert(le_word(w, m + 0x34) == bss_end);
        assert(le_word(w, at) == v);
    }
}

/// The name an NRO image is mounted under: the one it carries, else the stem of its file
/// name, else `plugin`.
pub open spec fn nro_name_or(image: Seq<u8>, file_stem: Option<String>) -> Seq<char> {
    match nro_name_bytes(image) {
        Some(bytes) => lossy_utf8(bytes),
        None => match file_stem {
            Some(stem) => stem@,
            None => "plugin"@,
        },
    }
}

impl NroFile {
    /// Wraps an image read from the file whose name without extension is `file_stem`. Its
    /// module name is read from the image; when the image carries none it is the file stem,
    /// or `plugin` when the path has none. An empty image is refused.
    pub fn from_image(image: Vec<u8>, file_stem: Option<String>) -> (nro: Result<NroFile, LoaderError>)
        requires
            nro_header_readable(image@),
        ensures
            image@.len() == 0 <==> nro is Err,
            nro matches Err(e) ==> e is EmptyImage,
            nro matches Ok(f) ==> f@.image == image@ && f@.name == nro_name_or(image@, file_stem),
    {
        if image.len() == 0 {
            return Err(LoaderError::EmptyImage);
        }
        let name = match nro_module_name(image.as_slice()) {
            Some(n) => n,
            None => match file_stem {
                Some(stem) => stem,
                None => "plugin".to_owned(),
            },
        };
        Ok(NroFile { image, name })
    }

    /// The module name the image will be mounted under.
    pub fn name(&self) -> (name: &str)
        ensures
            name@ == self@.name,
    {
        self.name.as_str()
    }

    /// Gives up the image and the module name, for mounting.
    pub fn into_parts(self) -> (parts: (Vec<u8>, String))
        ensures
            parts.0@ == self@.image,
            parts.1@ == self@.name,
    {
        (self.image, self.name)
    }

    /// Grows the bss of the module by 0xD0 bytes when its end coincides with the module
    /// object, so that the loader has room for the module object.
    pub fn fix_bss_size(&mut self)
        requires
            bss_fix_in_bounds(old(self)@.image),
        ensures
            final(self)@.image == bss_fixed(old(self)@.image),
            final(self)@.name == old(self)@.name,
    {
        assert(self.image@ == old(self)@.image);
        let mod_off = u32_at(self.image.as_slice(), 4) as usize;
        assert(mod_off as int == mod_header_offset(self.image@));
        assert(bss_fix_in_bounds(self.image@));
        let image_len = self.image.len();
        assert(mod_off + 0x38 <= image_len);
        let at = mod_off + 0x24;
        let bss_end_offset = u32_at(self.image.as_slice(), at);
        let module_object_offset = u32_at(self.image.as_slice(), mod_off + 0x34);
        if bss_end_offset == module_object_offset {
            let v = bss_end_offset + 0xD0;
            let ghost before = self.image@;
            let b0 = (v % 0x100) as u8;
            let b1 = ((v / 0x100) % 0x100) as u8;
            let b2 = ((v / 0x10000) % 0x100) as u8;
            let b3 = (v / 0x1000000) as u8;
            self.image.set(at, b0);
            self.image.set(at + 1, b1);
            self.image.set(at + 2, b2);
            self.image.set(at + 3, b3);
            assert(self.image@ =~= before.subrange(0, at as int) + le_bytes(v) + before.subrange(
                at + 4,
                before.len() as int,
            ));
        }
    }

    /// Hashes the whole image.
    pub fn hash(&self) -> (hash: Sha256Hash)
        ensures
            hash@ == sha256(self@.image),
    {
        Sha256Hash::new(self.image.as_slice())
    }
}

// ---------------------------------------------------------------------------
// Mounting
// ---------------------------------------------------------------------------

/// Handles what `nn::ro::RegisterModuleInfo` returned for the NRR: any code but 0 ends the
/// mounting of every plugin.
pub fn registration_outcome(rc: u32) -> (r: Result<(), LoaderError>)
    ensures
        rc == 0 ==> r is Ok,
        rc != 0 ==> (r matches Err(LoaderError::RegistrationError(c)) && c == rc),
{
    if rc == 0 {
        Ok(())
    } else {
        Err(LoaderError::RegistrationError(rc))
    }
}

/// Handles what `nn::ro::GetBufferSize` returned for an image: the size of the bss buffer
/// to allocate, or the error that ends the mounting of that image.
pub fn buffer_size_outcome(rc: u32, size: u64) -> (r: Result<u64, LoaderError>)
    ensures
        rc == 0 ==> (r matches Ok(s) && s == size),
        rc != 0 ==> (r matches Err(LoaderError::InvalidModuleBuffer(c)) && c == rc),
{
    if rc == 0 {
        Ok(size)
    } else {
        Err(LoaderError::InvalidModuleBuffer(rc))
    }
}

/// Handles what `nn::ro::LoadModule` returned for the image of `image_size` bytes mounted
/// under `name`: once loaded at `base`, the plugin joins the table of mounted plugins.
pub fn finish_mount(
    plugins: &mut LoadedPlugins,
    name: String,
    rc: u32,
    base: usize,
    image_size: usize,
) -> (r: Result<(), LoaderError>)
    requires
        rc == 0 ==> base + image_size <= usize::MAX,
    ensures
        rc == 0 ==> r is Ok && final(plugins)@ == old(plugins)@.push((name@, base, (base + image_size) as usize)),
        rc != 0 ==> (r matches Err(LoaderError::MountError(c)) && c == rc) && final(plugins)@ == old(plugins)@,
{
    if rc == 0 {
        plugins.record(name, base, image_size);
        Ok(())
    } else {
        Err(LoaderError::MountError(rc))
    }
}

} // verus!
