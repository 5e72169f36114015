//! The string table of a segment: every string of the segment in one blob,
//! with the offset at which each one starts.

use vstd::bytes::*;
use vstd::hash_map::StringHashMap;
use vstd::prelude::*;
use vstd::slice::*;
use vstd::string::*;
use vstd::utf8::*;

use crate::error::GraphError;
use crate::text::text;

verus! {

/// The first offset of the list, in list order, that is greater than
/// `offset`.
pub open spec fn first_greater(offsets: Seq<u32>, offset: u32) -> Option<u32>
    decreases offsets.len(),
{
    if offsets.len() == 0 {
        None
    } else if offsets[0] > offset {
        Some(offsets[0])
    } else {
        first_greater(offsets.drop_first(), offset)
    }
}

/// Where the string that starts at `offset` ends: at the first greater
/// offset of the list, or at the end of the blob.
pub open spec fn end_of(data: Seq<u8>, offsets: Seq<u32>, offset: u32) -> int {
    match first_greater(offsets, offset) {
        Some(e) => e as int,
        None => data.len() as int,
    }
}

/// The text that a table with this blob and these offsets holds at
/// `offset`: none where the offset or its end lies outside the blob, or
/// where the bytes between them are not valid UTF-8.
pub open spec fn text_at(data: Seq<u8>, offsets: Seq<u32>, offset: u32) -> Option<Seq<u8>> {
    let end = end_of(data, offsets, offset);
    if offset >= data.len() || end > data.len() {
        None
    } else if valid_utf8(data.subrange(offset as int, end)) {
        Some(data.subrange(offset as int, end))
    } else {
        None
    }
}

/// The four-byte little-endian encodings of the offsets, one after another.
pub open spec fn offsets_bytes(offsets: Seq<u32>) -> Seq<u8>
    decreases offsets.len(),
{
    if offsets.len() == 0 {
        Seq::empty()
    } else {
        offsets_bytes(offsets.drop_last()) + spec_u32_to_le_bytes(offsets.last())
    }
}

/// A table on disk: the blob's length, the blob, the number of offsets and
/// the offsets.
pub open spec fn table_bytes(data: Seq<u8>, offsets: Seq<u32>) -> Seq<u8> {
    spec_u64_to_le_bytes(data.len() as u64) + data + spec_u64_to_le_bytes(offsets.len() as u64)
        + offsets_bytes(offsets)
}

/// The blob's length that a stored table announces.
pub open spec fn stored_data_len(b: Seq<u8>) -> int {
    spec_u64_from_le_bytes(b.subrange(0, 8)) as int
}

/// The number of offsets that a stored table announces.
pub open spec fn stored_count(b: Seq<u8>) -> int {
    let at = 8 + stored_data_len(b);
    spec_u64_from_le_bytes(b.subrange(at, at + 8)) as int
}

/// The bytes hold a whole table: both lengths, the blob and every offset.
pub open spec fn table_fits(b: Seq<u8>) -> bool {
    &&& b.len() >= 8
    &&& 8 + stored_data_len(b) + 8 <= b.len()
    &&& 16 + stored_data_len(b) + 4 * stored_count(b) <= b.len()
}

/// The blob of a stored table.
pub open spec fn stored_data(b: Seq<u8>) -> Seq<u8> {
    b.subrange(8, 8 + stored_data_len(b))
}

/// The offsets of a stored table.
pub open spec fn stored_offsets(b: Seq<u8>) -> Seq<u32> {
    let base = 16 + stored_data_len(b);
    Seq::new(
        stored_count(b) as nat,
        |i: int| spec_u32_from_le_bytes(b.subrange(base + 4 * i, base + 4 * i + 4)),
    )
}

/// A string table as contracts see it: the blob, the offsets in the order
/// in which they were added, and the index from each text to its offset.
pub ghost struct TableModel {
    pub data: Seq<u8>,
    pub offsets: Seq<u32>,
    pub index: Map<Seq<u8>, u32>,
}

/// The empty table.
pub open spec fn tm_empty() -> TableModel {
    TableModel { data: Seq::empty(), offsets: Seq::empty(), index: Map::empty() }
}

/// The table whose offset 0 is taken by one zero byte that nothing is
/// indexed under.
pub open spec fn tm_sentinel() -> TableModel {
    TableModel { data: seq![0u8], offsets: seq![0u32], index: Map::empty() }
}

/// The table after interning `s`: unchanged where the index holds `s`; else
/// `s` is appended to the blob and indexed under the blob's former length.
pub open spec fn tm_intern(t: TableModel, s: Seq<u8>) -> TableModel {
    if t.index.contains_key(s) {
        t
    } else {
        TableModel {
            data: t.data + s,
            offsets: t.offsets.push(t.data.len() as u32),
            index: t.index.insert(s, t.data.len() as u32),
        }
    }
}

/// The table after interning `s`, if there is one.
pub open spec fn tm_intern_opt(t: TableModel, s: Option<Seq<u8>>) -> TableModel {
    match s {
        Some(s) => tm_intern(t, s),
        None => t,
    }
}

/// What the index holds for a text.
pub open spec fn tm_lookup(t: TableModel, s: Seq<u8>) -> Option<u32> {
    if t.index.contains_key(s) {
        Some(t.index[s])
    } else {
        None
    }
}

/// The text that the table holds at `offset`.
pub open spec fn tm_get(t: TableModel, offset: u32) -> Option<Seq<u8>> {
    text_at(t.data, t.offsets, offset)
}

/// An indexed text stands in the blob at its offset and ends where reading
/// says it ends.
pub open spec fn tm_entry_ok(t: TableModel, s: Seq<u8>) -> bool {
    let o = t.index[s];
    &&& o + s.len() <= t.data.len()
    &&& t.data.subrange(o as int, o + s.len()) == s
    &&& end_of(t.data, t.offsets, o) == o + s.len()
}

/// The table is one that interning built: the blob fits in 32 bits, every
/// offset lies within it, every indexed text is valid UTF-8, and every
/// indexed text of at least one byte is where the index says.
pub open spec fn tm_wf(t: TableModel) -> bool {
    &&& t.data.len() <= u32::MAX
    &&& forall|i: int| 0 <= i < t.offsets.len() ==> #[trigger] t.offsets[i] <= t.data.len()
    &&& forall|s: Seq<u8>| #[trigger] t.index.contains_key(s) ==> valid_utf8(s) && t.index[s]
        <= t.data.len()
    &&& forall|s: Seq<u8>| s.len() > 0 && #[trigger] t.index.contains_key(s) ==> tm_entry_ok(t, s)
}

/// The index that loading builds from the first `k` offsets: each offset is
/// paired with the text between it and the offset that follows it in the
/// list (the end of the blob for the last one); ranges that are out of
/// order, outside the blob or not valid UTF-8 are passed over, and a later
/// entry replaces an earlier one for the same text.
pub open spec fn loaded_index(data: Seq<u8>, offsets: Seq<u32>, k: int) -> Map<Seq<u8>, u32>
    decreases k,
{
    if k <= 0 {
        Map::empty()
    } else {
        let before = loaded_index(data, offsets, k - 1);
        let start = offsets[k - 1] as int;
        let end = if k < offsets.len() {
            offsets[k] as int
        } else {
            data.len() as int
        };
        if start <= end <= data.len() && valid_utf8(data.subrange(start, end)) {
            before.insert(data.subrange(start, end), offsets[k - 1])
        } else {
            before
        }
    }
}

/// The table that a stored table loads as.
pub open spec fn stored_table(b: Seq<u8>) -> TableModel {
    TableModel {
        data: stored_data(b),
        offsets: stored_offsets(b),
        index: loaded_index(stored_data(b), stored_offsets(b), stored_offsets(b).len() as int),
    }
}

/// The index of a table, keyed by bytes, that belongs to an index keyed by
/// characters.
pub open spec fn index_by_bytes(m: Map<Seq<char>, u32>) -> Map<Seq<u8>, u32> {
    Map::new(
        |s: Seq<u8>| valid_utf8(s) && m.contains_key(decode_utf8(s)),
        |s: Seq<u8>| m[decode_utf8(s)],
    )
}

/// Adding a string to an index keyed by characters adds its text to the
/// index keyed by bytes.
pub proof fn lemma_index_insert(m: Map<Seq<char>, u32>, c: Seq<char>, o: u32)
    ensures
        index_by_bytes(m.insert(c, o)) == index_by_bytes(m).insert(text(c), o),
{
    encode_utf8_valid_utf8(c);
    encode_utf8_decode_utf8(c);
    let a = index_by_bytes(m.insert(c, o));
    let b = index_by_bytes(m).insert(text(c), o);
    assert forall|s: Seq<u8>| #[trigger] a.contains_key(s) == b.contains_key(s) by {
        if valid_utf8(s) {
            decode_utf8_encode_utf8(s);
        }
    }
    assert forall|s: Seq<u8>| #[trigger] a.contains_key(s) implies a[s] == b[s] by {
        decode_utf8_encode_utf8(s);
    }
    assert(a.dom() =~= b.dom());
    assert(a =~= b);
}

/// `core::str::from_utf8`: the string that the bytes encode, exactly when
/// they are valid UTF-8.
#[verifier::external_body]
pub(crate) fn utf8_text<'a>(bytes: &'a [u8]) -> (r: Option<&'a str>)
    ensures
        r.is_some() == valid_utf8(bytes@),
        r matches Some(s) ==> text(s@) == bytes@,
{
    core::str::from_utf8(bytes).ok()
}

/// All strings of a segment in one blob, with the offsets at which they
/// start, and an index from each string to its offset.
pub struct StringTable {
    data: Vec<u8>,
    offsets: Vec<u32>,
    index: StringHashMap<u32>,
}

impl StringTable {
    /// The table as contracts see it.
    pub closed spec fn model(&self) -> TableModel {
        TableModel {
            data: self.data@,
            offsets: self.offsets@,
            index: index_by_bytes(self.index@),
        }
    }

    /// The blob.
    pub open spec fn spec_data(&self) -> Seq<u8> {
        self.model().data
    }

    /// The offsets, in the order in which they were added.
    pub open spec fn spec_offsets(&self) -> Seq<u32> {
        self.model().offsets
    }

    /// The offset that the index holds for a text.
    pub open spec fn lookup(&self, s: Seq<u8>) -> Option<u32> {
        tm_lookup(self.model(), s)
    }

    /// The text that the table holds at `offset`.
    pub open spec fn spec_get(&self, offset: u32) -> Option<Seq<u8>> {
        tm_get(self.model(), offset)
    }

    /// The bytes that `write_to` appends.
    pub open spec fn spec_bytes(&self) -> Seq<u8> {
        table_bytes(self.spec_data(), self.spec_offsets())
    }

    /// The table is one that interning built.
    pub open spec fn wf(&self) -> bool {
        tm_wf(self.model())
    }

    /// An empty table.
    pub fn new() -> (r: Self)
        ensures
            r.model() == tm_empty(),
            r.wf(),
    {
        let r = StringTable { data: Vec::new(), offsets: Vec::new(), index: StringHashMap::new() };
        assert(r.model().index =~= Map::<Seq<u8>, u32>::empty());
        r
    }

    /// A table whose offset 0 is taken by one zero byte that no string is
    /// indexed under, so that every interned string gets an offset of at
    /// least 1.
    pub fn with_sentinel() -> (r: Self)
        ensures
            r.model() == tm_sentinel(),
            r.wf(),
    {
        let mut data: Vec<u8> = Vec::new();
        data.push(0u8);
        let mut offsets: Vec<u32> = Vec::new();
        offsets.push(0u32);
        let r = StringTable { data, offsets, index: StringHashMap::new() };
        assert(r.model().index =~= Map::<Seq<u8>, u32>::empty());
        assert(r.model().data =~= seq![0u8]);
        assert(r.model().offsets =~= seq![0u32]);
        r
    }

    /// The length of the blob.
    pub fn byte_len(&self) -> (r: usize)
        ensures
            r == self.spec_data().len(),
    {
        self.data.len()
    }

    /// The offset under which `s` is indexed.
    pub fn find(&self, s: &str) -> (r: Option<u32>)
        ensures
            r == self.lookup(text(s@)),
    {
        proof {
            encode_utf8_valid_utf8(s@);
            encode_utf8_decode_utf8(s@);
        }
        match self.index.get(s) {
            Some(o) => Some(*o),
            None => None,
        }
    }

    /// Adds a string and returns its offset. A string that the index
    /// already holds keeps its offset and the table stays as it was; a new
    /// one is appended to the blob and gets the blob's former length.
    pub fn intern(&mut self, s: &str) -> (r: u32)
        requires
            old(self).lookup(text(s@)).is_none() ==> old(self).spec_data().len() + text(s@).len()
                <= u32::MAX,
        ensures
            final(self).model() == tm_intern(old(self).model(), text(s@)),
            final(self).lookup(text(s@)) == Some(r),
            old(self).wf() ==> final(self).wf(),
    {
        proof {
            encode_utf8_valid_utf8(s@);
            encode_utf8_decode_utf8(s@);
        }
        if let Some(o) = self.index.get(s) {
            return *o;
        }
        let offset: u32 = self.data.len() as u32;
        let bytes = s.as_bytes();
        let mut i: usize = 0;
        while i < bytes.len()
            invariant
                i <= bytes@.len(),
                bytes@ == text(s@),
                self.data@ == old(self).data@ + bytes@.subrange(0, i as int),
                self.offsets == old(self).offsets,
                self.index == old(self).index,
            decreases bytes@.len() - i,
        {
            self.data.push(bytes[i]);
            i += 1;
            assert(self.data@ =~= old(self).data@ + bytes@.subrange(0, i as int));
        }
        assert(bytes@.subrange(0, bytes@.len() as int) =~= bytes@);
        self.offsets.push(offset);
        self.index.insert(s.to_owned(), offset);
        proof {
            lemma_index_insert(old(self).index@, s@, offset);
            if old(self).wf() {
                lemma_tm_intern_wf(old(self).model(), text(s@));
            }
        }
        offset
    }

    /// Another name for `intern`.
    pub fn add(&mut self, s: &str) -> (r: u32)
        requires
            old(self).lookup(text(s@)).is_none() ==> old(self).spec_data().len() + text(s@).len()
                <= u32::MAX,
        ensures
            final(self).model() == tm_intern(old(self).model(), text(s@)),
            final(self).lookup(text(s@)) == Some(r),
            old(self).wf() ==> final(self).wf(),
    {
        self.intern(s)
    }

    /// The string that starts at `offset`.
    pub fn get(&self, offset: u32) -> (r: Option<&str>)
        ensures
            r matches Some(s) ==> self.spec_get(offset) == Some(text(s@)),
            r.is_none() ==> self.spec_get(offset).is_none(),
    {
        let start: usize = offset as usize;
        let mut end: usize = self.data.len();
        let mut i: usize = 0;
        let mut found = false;
        assert(self.offsets@.subrange(0, self.offsets@.len() as int) =~= self.offsets@);
        while i < self.offsets.len() && !found
            invariant
                i <= self.offsets@.len(),
                !found ==> end == self.data@.len(),
                !found ==> first_greater(self.offsets@, offset) == first_greater(
                    self.offsets@.subrange(i as int, self.offsets@.len() as int),
                    offset,
                ),
                found ==> first_greater(self.offsets@, offset) == Some(end as u32) && end
                    <= u32::MAX && end > offset,
            decreases self.offsets@.len() - i + (if found { 0int } else { 1int }),
        {
            let o: u32 = self.offsets[i];
            let ghost rest = self.offsets@.subrange(i as int, self.offsets@.len() as int);
            assert(rest[0] == o);
            assert(rest.drop_first() =~= self.offsets@.subrange(i + 1, self.offsets@.len() as int));
            if o > offset {
                end = o as usize;
                found = true;
            } else {
                i += 1;
            }
        }
        if start >= self.data.len() || end > self.data.len() {
            return None;
        }
        utf8_text(slice_subrange(self.data.as_slice(), start, end))
    }

    /// Appends the table as it is stored: the blob's length, the blob, the
    /// number of offsets and the offsets, integers little-endian.
    pub fn write_to(&self, out: &mut Vec<u8>)
        ensures
            final(out)@ == old(out)@ + self.spec_bytes(),
    {
        let mut len_bytes = u64_to_le_bytes(self.data.len() as u64);
        out.append(&mut len_bytes);
        let mut i: usize = 0;
        while i < self.data.len()
            invariant
                i <= self.data@.len(),
                out@ == old(out)@ + spec_u64_to_le_bytes(self.data@.len() as u64)
                    + self.data@.subrange(0, i as int),
            decreases self.data@.len() - i,
        {
            out.push(self.data[i]);
            i += 1;
            assert(out@ =~= old(out)@ + spec_u64_to_le_bytes(self.data@.len() as u64)
                + self.data@.subrange(0, i as int));
        }
        assert(self.data@.subrange(0, self.data@.len() as int) =~= self.data@);
        let mut count_bytes = u64_to_le_bytes(self.offsets.len() as u64);
        out.append(&mut count_bytes);
        let ghost head = old(out)@ + spec_u64_to_le_bytes(self.data@.len() as u64) + self.data@
            + spec_u64_to_le_bytes(self.offsets@.len() as u64);
        let mut j: usize = 0;
        assert(self.offsets@.subrange(0, 0) =~= Seq::<u32>::empty());
        assert(out@ =~= head + offsets_bytes(self.offsets@.subrange(0, 0)));
        while j < self.offsets.len()
            invariant
                j <= self.offsets@.len(),
                out@ == head + offsets_bytes(self.offsets@.subrange(0, j as int)),
            decreases self.offsets@.len() - j,
        {
            let mut b = u32_to_le_bytes(self.offsets[j]);
            out.append(&mut b);
            proof {
                let next = self.offsets@.subrange(0, j + 1);
                assert(next.drop_last() =~= self.offsets@.subrange(0, j as int));
                assert(next.last() == self.offsets@[j as int]);
                assert(out@ =~= head + offsets_bytes(next));
            }
            j += 1;
        }
        assert(self.offsets@.subrange(0, self.offsets@.len() as int) =~= self.offsets@);
        assert(out@ =~= old(out)@ + self.spec_bytes());
    }

    /// Reads a table from the bytes at the start of `slice`; what follows
    /// the table is ignored. Fails exactly when the bytes do not hold a
    /// whole table.
    pub fn load_from_mmap_slice(slice: &[u8]) -> (r: Result<Self, GraphError>)
        ensures
            r.is_ok() == table_fits(slice@),
            r matches Ok(t) ==> t.model() == stored_table(slice@),
            r matches Err(e) ==> e is InvalidFormat,
    {
        let total: usize = slice.len();
        if total < 8 {
            return Err(GraphError::InvalidFormat("String table too small".to_owned()));
        }
        let data_len_64: u64 = u64_from_le_bytes(slice_subrange(slice, 0, 8));
        if data_len_64 > (total - 8) as u64 {
            return Err(GraphError::InvalidFormat("Invalid data length".to_owned()));
        }
        let data_len: usize = data_len_64 as usize;
        let data = slice_to_vec(slice_subrange(slice, 8, 8 + data_len));
        let at: usize = 8 + data_len;
        if total - at < 8 {
            return Err(GraphError::InvalidFormat("Missing offsets count".to_owned()));
        }
        let count_64: u64 = u64_from_le_bytes(slice_subrange(slice, at, at + 8));
        let base: usize = at + 8;
        if count_64 > ((total - base) / 4) as u64 {
            return Err(GraphError::InvalidFormat("Invalid offsets count".to_owned()));
        }
        let count: usize = count_64 as usize;
        let mut offsets: Vec<u32> = Vec::new();
        let mut i: usize = 0;
        while i < count
            invariant
                i <= count,
                base + 4 * count <= total,
                total == slice@.len(),
                base == 16 + stored_data_len(slice@),
                offsets@.len() == i,
                forall|j: int|
                    0 <= j < i ==> offsets@[j] == spec_u32_from_le_bytes(
                        slice@.subrange(base + 4 * j, base + 4 * j + 4),
                    ),
            decreases count - i,
        {
            let o = u32_from_le_bytes(slice_subrange(slice, base + 4 * i, base + 4 * i + 4));
            offsets.push(o);
            i += 1;
        }
        assert(offsets@ =~= stored_offsets(slice@));
        let mut index: StringHashMap<u32> = StringHashMap::new();
        let mut k: usize = 0;
        assert(index_by_bytes(index@) =~= Map::<Seq<u8>, u32>::empty());
        while k < offsets.len()
            invariant
                k <= offsets@.len(),
                index_by_bytes(index@) == loaded_index(data@, offsets@, k as int),
            decreases offsets@.len() - k,
        {
            let start: usize = offsets[k] as usize;
            let end: usize = if k + 1 < offsets.len() {
                offsets[k + 1] as usize
            } else {
                data.len()
            };
            if start <= end && end <= data.len() {
                let piece = slice_subrange(data.as_slice(), start, end);
                if let Some(s) = utf8_text(piece) {
                    proof {
                        lemma_index_insert(index@, s@, offsets@[k as int]);
                    }
                    index.insert(s.to_owned(), offsets[k]);
                }
            }
            k += 1;
        }
        Ok(StringTable { data, offsets, index })
    }
}

impl Default for StringTable {
    fn default() -> (r: Self)
        ensures
            r.model() == tm_empty(),
            r.wf(),
    {
        StringTable::new()
    }
}

/// Adding an offset at the end of the list changes the first greater offset
/// only where there was none.
pub proof fn lemma_first_greater_push(offsets: Seq<u32>, x: u32, offset: u32)
    ensures
        first_greater(offsets.push(x), offset) == match first_greater(offsets, offset) {
            Some(v) => Some(v),
            None => if x > offset {
                Some(x)
            } else {
                None
            },
        },
    decreases offsets.len(),
{
    if offsets.len() == 0 {
        assert(offsets.push(x).drop_first() =~= Seq::<u32>::empty());
    } else {
        assert(offsets.push(x).drop_first() =~= offsets.drop_first().push(x));
        assert(offsets.push(x)[0] == offsets[0]);
        if offsets[0] > offset {
        } else {
            lemma_first_greater_push(offsets.drop_first(), x, offset);
        }
    }
}

/// Where no offset of the list exceeds a bound, none is the first greater
/// one for an offset at or beyond that bound.
pub proof fn lemma_first_greater_none(offsets: Seq<u32>, offset: u32)
    requires
        forall|i: int| 0 <= i < offsets.len() ==> offsets[i] <= offset,
    ensures
        first_greater(offsets, offset).is_none(),
    decreases offsets.len(),
{
    if offsets.len() > 0 {
        lemma_first_greater_none(offsets.drop_first(), offset);
    }
}

/// The first greater offset, where there is one, is an offset of the list
/// and greater.
pub proof fn lemma_first_greater_is_member(offsets: Seq<u32>, offset: u32)
    ensures
        first_greater(offsets, offset) matches Some(v) ==> v > offset && offsets.contains(v),
    decreases offsets.len(),
{
    if offsets.len() > 0 {
        if offsets[0] > offset {
            assert(offsets[0] == offsets[0]);
        } else {
            lemma_first_greater_is_member(offsets.drop_first(), offset);
            if first_greater(offsets, offset).is_some() {
                let v = first_greater(offsets, offset)->0;
                let i = choose|i: int|
                    0 <= i < offsets.drop_first().len() && offsets.drop_first()[i] == v;
                assert(offsets[i + 1] == v);
            }
        }
    }
}

/// Interning keeps a table well formed, as long as the blob stays within
/// 32 bits.
pub proof fn lemma_tm_intern_wf(t: TableModel, s: Seq<u8>)
    requires
        tm_wf(t),
        valid_utf8(s),
        t.index.contains_key(s) || t.data.len() + s.len() <= u32::MAX,
    ensures
        tm_wf(tm_intern(t, s)),
{
    if !t.index.contains_key(s) {
        let r = t.data.len() as u32;
        let after = tm_intern(t, s);
        assert forall|x: Seq<u8>| x.len() > 0 && #[trigger] after.index.contains_key(
            x,
        ) implies tm_entry_ok(after, x) by {
            lemma_first_greater_push(t.offsets, r, after.index[x]);
            if x == s {
                lemma_first_greater_none(t.offsets, r);
                assert(after.data.subrange(r as int, r + x.len()) =~= x);
            } else {
                assert(t.index.contains_key(x));
                assert(tm_entry_ok(t, x));
                let o = t.index[x];
                lemma_first_greater_is_member(t.offsets, o);
                assert(after.data.subrange(o as int, o + x.len()) =~= t.data.subrange(
                    o as int,
                    o + x.len(),
                ));
            }
        }
        assert forall|i: int| 0 <= i < after.offsets.len() implies #[trigger] after.offsets[i]
            <= after.data.len() by {
            if i < t.offsets.len() {
                assert(after.offsets[i] == t.offsets[i]);
            }
        }
    }
}

/// A text of at least one byte that a well-formed table holds in its index
/// is what the table gives back at the indexed offset.
pub proof fn lemma_tm_reads_back(t: TableModel, s: Seq<u8>)
    requires
        tm_wf(t),
        s.len() > 0,
        t.index.contains_key(s),
    ensures
        tm_get(t, t.index[s]) == Some(s),
{
    assert(tm_entry_ok(t, s));
}

/// A text interned twice gets the same offset, and the second interning
/// changes nothing.
pub proof fn lemma_tm_intern_twice(t: TableModel, s: Seq<u8>)
    ensures
        tm_intern(tm_intern(t, s), s) == tm_intern(t, s),
        tm_lookup(tm_intern(t, s), s).is_some(),
{
}

} // verus!
