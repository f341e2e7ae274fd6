//! AFS2 (AWB) archives: numbered files behind an offset table.

use vstd::prelude::*;
use crate::acb::builder::{padding, BuilderError};
use crate::bytes::{le16, le32, u16_le, u32_le, zeros};
use crate::reader::{aligned, Cursor, IoError};

verus! {

/// A file of an archive: its id and its bytes.
pub type AfsFile = (u32, Seq<u8>);

/// What an archive builder holds.
pub struct AfsModel {
    pub alignment: u32,
    pub subkey: u16,
    pub files: Seq<AfsFile>,
}

/// A sorted list with one more file, behind those of the same id.
pub open spec fn inserted(s: Seq<AfsFile>, f: AfsFile) -> Seq<AfsFile>
    decreases s.len(),
{
    if s.len() == 0 || s.last().0 <= f.0 {
        s.push(f)
    } else {
        inserted(s.drop_last(), f).push(s.last())
    }
}

/// The files by id; files of one id keep their order.
pub open spec fn ordered(files: Seq<AfsFile>) -> Seq<AfsFile>
    decreases files.len(),
{
    if files.len() == 0 {
        Seq::empty()
    } else {
        inserted(ordered(files.drop_last()), files.last())
    }
}

/// Whether all ids fit in sixteen bits.
pub open spec fn ids_short(files: Seq<AfsFile>) -> bool {
    forall|i: int| 0 <= i < files.len() ==> (#[trigger] files[i]).0 <= 0xFFFF
}

/// The bytes of an id in the archive.
pub open spec fn id_len(files: Seq<AfsFile>) -> nat {
    if files.len() <= 0xFFFF && ids_short(files) { 2 } else { 4 }
}

/// The bytes before the first file, for given field widths.
pub open spec fn header_len(count: nat, id: nat, position: nat) -> nat {
    16 + id * count + position * (count + 1)
}

/// Where the padding before file `k` starts, which is where the file before it
/// ends; the first one starts behind the header.
pub open spec fn file_offset(files: Seq<AfsFile>, alignment: nat, start: nat, k: nat) -> nat
    decreases k,
{
    if k == 0 {
        start
    } else {
        let o = file_offset(files, alignment, start, (k - 1) as nat);
        o + padding(o as int, alignment as int) + files[k - 1].1.len()
    }
}

/// The bytes of an offset in the archive.
pub open spec fn position_len(files: Seq<AfsFile>, alignment: nat) -> nat {
    let start = header_len(files.len(), id_len(files), 2);
    if file_offset(files, alignment, start, files.len()) <= 0xFFFF { 2 } else { 4 }
}

/// A number in two or four little-endian bytes; higher bits are dropped.
pub open spec fn sized_le(v: nat, size: nat) -> Seq<u8> {
    if size == 2 {
        le16((v % 0x1_0000) as u16)
    } else {
        le32((v % 0x1_0000_0000) as u32)
    }
}

/// The first `n` ids.
pub open spec fn ids_bytes(files: Seq<AfsFile>, size: nat, n: nat) -> Seq<u8>
    decreases n,
{
    if n == 0 {
        Seq::empty()
    } else {
        ids_bytes(files, size, (n - 1) as nat) + sized_le(files[n - 1].0 as nat, size)
    }
}

/// The first `n` offsets.
pub open spec fn offsets_bytes(
    files: Seq<AfsFile>,
    alignment: nat,
    start: nat,
    size: nat,
    n: nat,
) -> Seq<u8>
    decreases n,
{
    if n == 0 {
        Seq::empty()
    } else {
        offsets_bytes(files, alignment, start, size, (n - 1) as nat) + sized_le(
            file_offset(files, alignment, start, (n - 1) as nat),
            size,
        )
    }
}

/// The first `n` files, each behind the padding that aligns it, where the
/// first byte stands at `start`.
pub open spec fn files_bytes(files: Seq<AfsFile>, alignment: nat, start: nat, n: nat) -> Seq<u8>
    decreases n,
{
    if n == 0 {
        Seq::empty()
    } else {
        let k = (n - 1) as nat;
        files_bytes(files, alignment, start, k) + zeros(
            padding(file_offset(files, alignment, start, k) as int, alignment as int),
        ) + files[k as int].1
    }
}

impl AfsModel {
    /// The files by id.
    pub open spec fn sorted(self) -> Seq<AfsFile> {
        ordered(self.files)
    }

    /// The bytes of an id.
    pub open spec fn ids(self) -> nat {
        id_len(self.sorted())
    }

    /// The bytes of an offset.
    pub open spec fn positions(self) -> nat {
        position_len(self.sorted(), self.alignment as nat)
    }

    /// The bytes before the first file.
    pub open spec fn header(self) -> nat {
        header_len(self.files.len(), self.ids(), self.positions())
    }

    /// Where the last file ends, where the archive's header ends at `start`.
    pub open spec fn end_from(self, start: nat) -> nat {
        file_offset(self.sorted(), self.alignment as nat, start, self.files.len())
    }

    /// Whether an archive behind `base` bytes has 32-bit offsets and
    /// positions.
    pub open spec fn fits(self, base: nat) -> bool {
        self.end_from(self.header()) <= u32::MAX && self.end_from(base + self.header())
            <= u32::MAX
    }

    /// The fixed part of the header.
    pub open spec fn prologue(self) -> Seq<u8> {
        let mode: nat = if self.subkey != 0 { 2 } else { 1 };
        seq![0x41u8, 0x46, 0x53, 0x32] + le32(
            (mode + self.positions() * 0x100 + self.ids() * 0x1_0000) as u32,
        ) + le32(self.files.len() as u32) + le16((self.alignment % 0x1_0000) as u16) + le16(
            self.subkey,
        )
    }

    /// The archive, appended behind `base` bytes.
    pub open spec fn bytes(self, base: nat) -> Seq<u8> {
        let n = self.files.len();
        let a = self.alignment as nat;
        self.prologue() + ids_bytes(self.sorted(), self.ids(), n) + offsets_bytes(
            self.sorted(),
            a,
            self.header(),
            self.positions(),
            n + 1,
        ) + files_bytes(self.sorted(), a, base + self.header(), n)
    }
}

/// The models of a list of files.
pub open spec fn file_models(v: Seq<(u32, Vec<u8>)>) -> Seq<AfsFile> {
    v.map_values(|f: (u32, Vec<u8>)| (f.0, f.1@))
}

/// Sorting keeps every file.
pub proof fn ordered_keeps(files: Seq<AfsFile>)
    ensures
        ordered(files).to_multiset() =~= files.to_multiset(),
        ordered(files).len() == files.len(),
    decreases files.len(),
{
    broadcast use vstd::seq_lib::group_to_multiset_ensures;

    if files.len() > 0 {
        let f = files.last();
        ordered_keeps(files.drop_last());
        inserted_keeps(ordered(files.drop_last()), f);
        assert(files =~= files.drop_last().push(f));
    } else {
        assert(ordered(files) =~= files);
    }
}

proof fn inserted_keeps(s: Seq<AfsFile>, f: AfsFile)
    ensures
        inserted(s, f).to_multiset() =~= s.to_multiset().insert(f),
        inserted(s, f).len() == s.len() + 1,
    decreases s.len(),
{
    broadcast use vstd::seq_lib::group_to_multiset_ensures;

    if s.len() == 0 || s.last().0 <= f.0 {
    } else {
        inserted_keeps(s.drop_last(), f);
        assert(s =~= s.drop_last().push(s.last()));
    }
}

/// Sorting puts the files in the order of their ids.
pub proof fn ordered_sorts(files: Seq<AfsFile>)
    ensures
        forall|i: int, j: int|
            0 <= i <= j < ordered(files).len() ==> (#[trigger] ordered(files)[i]).0 <= (
            #[trigger] ordered(files)[j]).0,
    decreases files.len(),
{
    if files.len() > 0 {
        ordered_sorts(files.drop_last());
        inserted_sorts(ordered(files.drop_last()), files.last());
    }
}

spec fn by_id(s: Seq<AfsFile>) -> bool {
    forall|i: int, j: int|
        0 <= i <= j < s.len() ==> (#[trigger] s[i]).0 <= (#[trigger] s[j]).0
}

proof fn inserted_sorts(s: Seq<AfsFile>, f: AfsFile)
    requires
        by_id(s),
    ensures
        by_id(inserted(s, f)),
        s.len() > 0 && s.last().0 > f.0 ==> forall|i: int|
            0 <= i < inserted(s, f).len() ==> (#[trigger] inserted(s, f)[i]).0 <= s.last().0,
        inserted(s, f).len() == s.len() + 1,
    decreases s.len(),
{
    if s.len() == 0 || s.last().0 <= f.0 {
    } else {
        let r = s.drop_last();
        inserted_sorts(r, f);
        let q = inserted(r, f);
        assert forall|i: int| 0 <= i < q.len() implies (#[trigger] q[i]).0 <= s.last().0 by {
            if r.len() > 0 && r.last().0 > f.0 {
                assert(r.last() == s[s.len() - 2]);
            } else {
                assert(q == r.push(f));
                if i < r.len() {
                    assert(q[i] == s[i]);
                }
            }
        }
    }
}

/// Insertion at the place behind all ids that are not greater.
proof fn inserted_at(s: Seq<AfsFile>, f: AfsFile, p: int)
    requires
        0 <= p <= s.len(),
        p > 0 ==> s[p - 1].0 <= f.0,
        forall|i: int| p <= i < s.len() ==> (#[trigger] s[i]).0 > f.0,
    ensures
        inserted(s, f) == s.insert(p, f),
    decreases s.len(),
{
    if p == s.len() {
        assert(s.insert(p, f) =~= s.push(f));
    } else {
        inserted_at(s.drop_last(), f, p);
        assert(s.insert(p, f) =~= s.drop_last().insert(p, f).push(s.last()));
    }
}

/// Builder for AFS2 (AWB) archives.
#[derive(Debug)]
pub struct AfsArchiveBuilder {
    alignment: u32,
    subkey: u16,
    files: Vec<(u32, Vec<u8>)>,
}

impl View for AfsArchiveBuilder {
    type V = AfsModel;

    closed spec fn view(&self) -> AfsModel {
        AfsModel {
            alignment: self.alignment,
            subkey: self.subkey,
            files: file_models(self.files@),
        }
    }
}

/// The next multiple of `alignment`; alignment zero keeps the offset.
fn align_to_u64(offset: u64, alignment: u64) -> (r: u64)
    requires
        offset + padding(offset as int, alignment as int) <= u64::MAX,
    ensures
        r == offset + padding(offset as int, alignment as int),
{
    if alignment == 0 {
        return offset;
    }
    let q: u128 = (offset as u128 + alignment as u128 - 1) / alignment as u128;
    proof {
        crate::reader::aligned_bounds(alignment as int, offset as int);
    }
    assert(q * alignment == aligned(alignment as int, offset as int));
    (q * alignment as u128) as u64
}

/// Appends a number in two or four bytes.
fn write_sized_le(out: &mut Vec<u8>, v: u64, size: u32)
    requires
        size == 2 || size == 4,
    ensures
        final(out)@ == old(out)@ + sized_le(v as nat, size as nat),
{
    if size == 2 {
        crate::bytes::put_u16_le(out, (v % 0x1_0000) as u16);
    } else {
        crate::bytes::put_u32_le(out, (v % 0x1_0000_0000) as u32);
    }
}

/// Appends the ids.
fn write_ids(writer: &mut Vec<u8>, sorted: &Vec<(u32, Vec<u8>)>, ids: u32)
    requires
        ids == 2 || ids == 4,
    ensures
        final(writer)@ == old(writer)@ + ids_bytes(file_models(sorted@), ids as nat, sorted@.len()),
{
    let ghost files = file_models(sorted@);
    let mut i: usize = 0;
    assert(writer@ =~= old(writer)@ + ids_bytes(files, ids as nat, 0));
    while i < sorted.len()
        invariant
            i <= sorted@.len(),
            files == file_models(sorted@),
            ids == 2 || ids == 4,
            writer@ == old(writer)@ + ids_bytes(files, ids as nat, i as nat),
        decreases sorted@.len() - i,
    {
        assert(files[i as int].0 == sorted@[i as int].0);
        write_sized_le(writer, sorted[i].0 as u64, ids);
        i += 1;
        assert(writer@ =~= old(writer)@ + ids_bytes(files, ids as nat, i as nat));
    }
}

/// Appends the offsets.
fn write_offsets(
    writer: &mut Vec<u8>,
    offsets: &Vec<u64>,
    positions: u32,
    Ghost(files): Ghost<Seq<AfsFile>>,
    Ghost(a): Ghost<nat>,
    Ghost(start): Ghost<nat>,
)
    requires
        positions == 2 || positions == 4,
        offsets@ == Seq::new(offsets@.len(), |j: int| file_offset(files, a, start, j as nat) as u64),
        forall|j: nat|
            j < offsets@.len() ==> #[trigger] file_offset(files, a, start, j) <= u32::MAX,
    ensures
        final(writer)@ == old(writer)@ + offsets_bytes(
            files,
            a,
            start,
            positions as nat,
            offsets@.len(),
        ),
{
    let mut k: usize = 0;
    assert(writer@ =~= old(writer)@ + offsets_bytes(files, a, start, positions as nat, 0));
    while k < offsets.len()
        invariant
            k <= offsets@.len(),
            positions == 2 || positions == 4,
            offsets@ == Seq::new(
                offsets@.len(),
                |j: int| file_offset(files, a, start, j as nat) as u64,
            ),
            forall|j: nat|
                j < offsets@.len() ==> #[trigger] file_offset(files, a, start, j) <= u32::MAX,
            writer@ == old(writer)@ + offsets_bytes(files, a, start, positions as nat, k as nat),
        decreases offsets@.len() - k,
    {
        assert(offsets@[k as int] == file_offset(files, a, start, k as nat));
        write_sized_le(writer, offsets[k], positions);
        k += 1;
        assert(writer@ =~= old(writer)@ + offsets_bytes(
            files,
            a,
            start,
            positions as nat,
            k as nat,
        ));
    }
}

impl AfsArchiveBuilder {
    pub fn new() -> (r: Self)
        ensures
            r@ == (AfsModel { alignment: 32, subkey: 0, files: Seq::empty() }),
    {
        let r = AfsArchiveBuilder { alignment: 32, subkey: 0, files: Vec::new() };
        assert(r@.files =~= Seq::<AfsFile>::empty());
        r
    }

    pub fn with_alignment(self, alignment: u32) -> (r: Self)
        ensures
            r@ == (AfsModel { alignment, ..self@ }),
    {
        let mut r = self;
        r.alignment = alignment;
        r
    }

    pub fn with_subkey(self, subkey: u16) -> (r: Self)
        ensures
            r@ == (AfsModel { subkey, ..self@ }),
    {
        let mut r = self;
        r.subkey = subkey;
        r
    }

    pub fn add_file(&mut self, cue_id: u32, data: Vec<u8>) -> (r: &mut Self)
        ensures
            r@ == (AfsModel { files: old(self)@.files.push((cue_id, data@)), ..old(self)@ }),
            *final(self) == *final(r),
    {
        self.files.push((cue_id, data));
        assert(self@.files =~= old(self)@.files.push((cue_id, data@)));
        self
    }

    /// Build the AFS2 archive and append it to the output. Files are aligned
    /// to positions of the whole output.
    pub fn build(&self, writer: &mut Vec<u8>) -> (r: Result<(), BuilderError>)
        requires
            self@.files.len() > 0 ==> self@.fits(old(writer)@.len()),
        ensures
            r is Ok <==> self@.files.len() > 0,
            r is Ok ==> final(writer)@ == old(writer)@ + self@.bytes(old(writer)@.len()),
            r is Err ==> r->Err_0 is NoTracks && final(writer)@ == old(writer)@,
    {
        if self.files.len() == 0 {
            return Err(BuilderError::NoTracks);
        }
        let ghost m = self@;
        let ghost base = writer@.len();
        let sorted = self.ordered_files();
        let ghost files = file_models(sorted@);
        let ghost a = self.alignment as nat;
        let ghost n = files.len();
        proof {
            ordered_keeps(m.files);
            offset_bounds(m, base);
        }
        let file_count: u32 = sorted.len() as u32;
        let ids: u32 = self.id_field_len(&sorted);
        let positions: u32 = self.position_field_len(ids, &sorted);
        assert(ids * file_count <= 4 * file_count) by (nonlinear_arith)
            requires
                ids <= 4,
        ;
        assert(positions * (file_count + 1) <= 4 * (file_count + 1)) by (nonlinear_arith)
            requires
                positions <= 4,
        ;
        let header_size: u64 = 16 + ids as u64 * file_count as u64 + positions as u64 * (
        file_count as u64 + 1);
        assert(header_size == m.header());
        let offsets = self.file_offsets(header_size as u32, &sorted);
        self.write_prologue(writer, file_count, ids, positions);
        write_ids(writer, &sorted, ids);
        write_offsets(writer, &offsets, positions, Ghost(files), Ghost(a), Ghost(m.header()));
        proof {
            ids_bytes_len(files, m.ids(), n);
            offsets_bytes_len(files, a, m.header(), m.positions(), n + 1);
            assert(n * m.ids() == m.ids() * n) by (nonlinear_arith);
            assert((n + 1) * m.positions() == m.positions() * (n + 1)) by (nonlinear_arith);
            assert(writer@.len() == base + m.header());
        }
        self.write_files(writer, &sorted);
        assert(writer@ =~= old(writer)@ + m.bytes(base));
        Ok(())
    }

    /// Appends the fixed part of the header.
    fn write_prologue(&self, writer: &mut Vec<u8>, file_count: u32, ids: u32, positions: u32)
        requires
            file_count == self@.files.len(),
            ids == self@.ids(),
            positions == self@.positions(),
            ids <= 4,
            positions <= 4,
        ensures
            final(writer)@ == old(writer)@ + self@.prologue(),
            self@.prologue().len() == 16,
    {
        writer.push(0x41);
        writer.push(0x46);
        writer.push(0x53);
        writer.push(0x32);
        let mode: u32 = if self.subkey != 0 { 2 } else { 1 };
        crate::bytes::put_u32_le(writer, mode + positions * 0x100 + ids * 0x1_0000);
        crate::bytes::put_u32_le(writer, file_count);
        crate::bytes::put_u16_le(writer, (self.alignment % 0x1_0000) as u16);
        crate::bytes::put_u16_le(writer, self.subkey);
        assert(writer@ =~= old(writer)@ + self@.prologue());
    }

    /// Appends the files, each at an aligned position of the output.
    fn write_files(&self, writer: &mut Vec<u8>, sorted: &Vec<(u32, Vec<u8>)>)
        requires
            forall|j: nat|
                j <= sorted@.len() ==> #[trigger] file_offset(
                    file_models(sorted@),
                    self@.alignment as nat,
                    old(writer)@.len(),
                    j,
                ) <= u32::MAX,
        ensures
            final(writer)@ == old(writer)@ + files_bytes(
                file_models(sorted@),
                self@.alignment as nat,
                old(writer)@.len(),
                sorted@.len(),
            ),
    {
        let ghost files = file_models(sorted@);
        let ghost a = self.alignment as nat;
        let ghost start = writer@.len();
        assert(a == self@.alignment as nat);
        assert forall|j: nat| j <= sorted@.len() implies #[trigger] file_offset(files, a, start, j)
            <= u32::MAX by {}
        let mut f: usize = 0;
        assert(writer@ =~= old(writer)@ + files_bytes(files, a, start, 0));
        while f < sorted.len()
            invariant
                f <= sorted@.len(),
                files == file_models(sorted@),
                a == self.alignment,
                start == old(writer)@.len(),
                forall|j: nat|
                    j <= sorted@.len() ==> #[trigger] file_offset(files, a, start, j) <= u32::MAX,
                writer@ == old(writer)@ + files_bytes(files, a, start, f as nat),
                writer@.len() == file_offset(files, a, start, f as nat),
            decreases sorted@.len() - f,
        {
            assert(files[f as int].1 == sorted@[f as int].1@);
            let current_pos: u64 = writer.len() as u64;
            assert(file_offset(files, a, start, (f + 1) as nat) <= u32::MAX);
            assert(current_pos + padding(current_pos as int, a as int) <= u32::MAX);
            let aligned_pos: u64 = align_to_u64(current_pos, self.alignment as u64);
            crate::bytes::put_zeros(writer, (aligned_pos - current_pos) as usize);
            crate::bytes::put_slice(writer, sorted[f].1.as_slice());
            f += 1;
            assert(writer@ =~= old(writer)@ + files_bytes(files, a, start, f as nat));
        }
    }

    /// Whether the archive has 32-bit offsets when it starts the output.
    pub fn fits_alone(&self) -> (r: bool)
        ensures
            r == self@.fits(0),
    {
        let ghost m = self@;
        let sorted = self.ordered_files();
        proof {
            ordered_keeps(m.files);
        }
        let ids: u32 = self.id_field_len(&sorted);
        let n: u128 = sorted.len() as u128;
        assert(ids * n <= 4 * n) by (nonlinear_arith)
            requires
                ids <= 4,
                n >= 0,
        ;
        let short: u128 = 16 + ids as u128 * n + 2 * (n + 1);
        let positions: u128 = match self.end_within(short, &sorted) {
            Some(end) => if end <= 0xFFFF {
                2
            } else {
                4
            },
            None => 4,
        };
        assert(positions * (n + 1) <= 4 * (n + 1)) by (nonlinear_arith)
            requires
                positions <= 4,
                n >= 0,
        ;
        let header: u128 = 16 + ids as u128 * n + positions * (n + 1);
        assert(header == m.header());
        self.end_within(header, &sorted).is_some()
    }

    /// Where the last file ends, within 32 bits.
    fn end_within(&self, start: u128, files: &Vec<(u32, Vec<u8>)>) -> (r: Option<u32>)
        requires
            start <= 0x8_0000_0000_0000_0020,
        ensures
            ({
                let end = file_offset(
                    file_models(files@),
                    self@.alignment as nat,
                    start as nat,
                    files@.len(),
                );
                match r {
                    Some(e) => e == end,
                    None => end > u32::MAX,
                }
            }),
    {
        let ghost m = file_models(files@);
        let ghost a = self.alignment as nat;
        let mut current: u128 = start;
        let mut i: usize = 0;
        while i < files.len()
            invariant
                i <= files@.len(),
                m == file_models(files@),
                a == self.alignment,
                start <= 0x8_0000_0000_0000_0020,
                current == file_offset(m, a, start as nat, i as nat),
                i == 0 ==> current == start,
                i > 0 ==> current <= 0x2_0000_0000_0000_0000,
            decreases files@.len() - i,
        {
            if current > u32::MAX as u128 {
                proof {
                    offset_grows(m, a, start as nat, i as nat, m.len());
                }
                return None;
            }
            assert(m[i as int].1 == files@[i as int].1@);
            let pad: usize = crate::acb::builder::pad_len(current as usize, self.alignment);
            proof {
                if a > 0 {
                    crate::reader::aligned_bounds(a as int, current as int);
                }
            }
            current = current + pad as u128 + files[i].1.len() as u128;
            i += 1;
        }
        if current > u32::MAX as u128 {
            None
        } else {
            Some(current as u32)
        }
    }

    /// The files by id; files of one id keep their order.
    fn ordered_files(&self) -> (r: Vec<(u32, Vec<u8>)>)
        ensures
            file_models(r@) == ordered(self@.files),
    {
        let ghost all = self@.files;
        let mut out: Vec<(u32, Vec<u8>)> = Vec::new();
        let mut i: usize = 0;
        assert(file_models(out@) =~= ordered(all.subrange(0, 0)));
        while i < self.files.len()
            invariant
                i <= self.files@.len(),
                all == self@.files,
                self.files@.len() == all.len(),
                file_models(out@) == ordered(all.subrange(0, i as int)),
            decreases self.files@.len() - i,
        {
            let id: u32 = self.files[i].0;
            let data = crate::bytes::copy_bytes(self.files[i].1.as_slice());
            let ghost s = file_models(out@);
            let ghost f: AfsFile = (id, data@);
            let mut p: usize = out.len();
            while p > 0 && out[p - 1].0 > id
                invariant
                    p <= out@.len(),
                    s == file_models(out@),
                    f.0 == id,
                    forall|j: int| p <= j < s.len() ==> (#[trigger] s[j]).0 > f.0,
                decreases p,
            {
                assert(s[p - 1].0 == out@[p - 1].0);
                p -= 1;
            }
            proof {
                if p > 0 {
                    assert(s[p - 1].0 == out@[p - 1].0);
                }
                inserted_at(s, f, p as int);
                assert(all.subrange(0, i + 1).drop_last() =~= all.subrange(0, i as int));
                assert(all.subrange(0, i + 1).last() == f);
            }
            out.insert(p, (id, data));
            assert(file_models(out@) =~= s.insert(p as int, f));
            i += 1;
        }
        assert(all.subrange(0, all.len() as int) =~= all);
        out
    }

    /// The bytes of an id: two where all fit.
    fn id_field_len(&self, files: &Vec<(u32, Vec<u8>)>) -> (r: u32)
        ensures
            r == id_len(file_models(files@)),
            r == 2 || r == 4,
    {
        let ghost m = file_models(files@);
        let mut i: usize = 0;
        while i < files.len()
            invariant
                i <= files@.len(),
                m == file_models(files@),
                forall|j: int| 0 <= j < i ==> (#[trigger] m[j]).0 <= 0xFFFF,
            decreases files@.len() - i,
        {
            if files[i].0 > 0xFFFF {
                assert(m[i as int].0 > 0xFFFF);
                return 4;
            }
            i += 1;
        }
        if files.len() <= 0xFFFF {
            2
        } else {
            4
        }
    }

    /// The bytes of an offset: two where the archive with two-byte offsets is
    /// short enough.
    fn position_field_len(&self, id_field_len: u32, files: &Vec<(u32, Vec<u8>)>) -> (r: u32)
        requires
            id_field_len == id_len(file_models(files@)),
            files@.len() < u32::MAX,
            ({
                let m = file_models(files@);
                let start = header_len(m.len(), id_len(m), 2);
                file_offset(m, self@.alignment as nat, start, m.len()) <= u32::MAX
            }),
        ensures
            r == position_len(file_models(files@), self@.alignment as nat),
            r == 2 || r == 4,
    {
        let ghost m = file_models(files@);
        let ghost start = header_len(m.len(), id_len(m), 2);
        let file_count: u32 = files.len() as u32;
        proof {
            offset_grows(m, self.alignment as nat, start, 0, m.len());
            assert(id_field_len * file_count <= 4 * file_count) by (nonlinear_arith)
                requires
                    id_field_len <= 4,
            ;
        }
        let header_size: u64 = 16 + id_field_len as u64 * file_count as u64 + 2 * (file_count as u64
            + 1);
        assert(header_size == start);
        let offsets = self.file_offsets(header_size as u32, files);
        let last: u64 = offsets[offsets.len() - 1];
        if last <= 0xFFFF {
            2
        } else {
            4
        }
    }

    /// The offset of each file, and where the last one ends.
    fn file_offsets(&self, header_size: u32, files: &Vec<(u32, Vec<u8>)>) -> (r: Vec<u64>)
        requires
            file_offset(
                file_models(files@),
                self@.alignment as nat,
                header_size as nat,
                files@.len(),
            ) <= u32::MAX,
        ensures
            r@ == Seq::new(
                files@.len() + 1,
                |j: int|
                    file_offset(
                        file_models(files@),
                        self@.alignment as nat,
                        header_size as nat,
                        j as nat,
                    ) as u64,
            ),
    {
        let ghost m = file_models(files@);
        let ghost a = self.alignment as nat;
        let ghost start = header_size as nat;
        let mut offsets: Vec<u64> = Vec::new();
        let mut current: u64 = header_size as u64;
        let mut i: usize = 0;
        while i < files.len()
            invariant
                i <= files@.len(),
                m == file_models(files@),
                a == self.alignment,
                file_offset(m, a, start, m.len()) <= u32::MAX,
                current == file_offset(m, a, start, i as nat),
                offsets@ =~= Seq::new(i as nat, |j: int| file_offset(m, a, start, j as nat) as u64),
            decreases files@.len() - i,
        {
            offsets.push(current);
            proof {
                offset_grows(m, a, start, (i + 1) as nat, m.len());
                assert(m[i as int].1 == files@[i as int].1@);
            }
            current = align_to_u64(current, self.alignment as u64) + files[i].1.len() as u64;
            i += 1;
        }
        offsets.push(current);
        offsets
    }
}

impl Default for AfsArchiveBuilder {
    fn default() -> (r: Self)
        ensures
            r@ == (AfsModel { alignment: 32, subkey: 0, files: Seq::empty() }),
    {
        Self::new()
    }
}

/// Offsets never go back.
proof fn offset_grows(files: Seq<AfsFile>, alignment: nat, start: nat, k: nat, n: nat)
    requires
        k <= n,
    ensures
        file_offset(files, alignment, start, k) <= file_offset(files, alignment, start, n),
    decreases n,
{
    if k < n {
        offset_grows(files, alignment, start, k, (n - 1) as nat);
    }
}

/// A later start gives later offsets.
proof fn offset_monotone(files: Seq<AfsFile>, alignment: nat, s: nat, t: nat, n: nat)
    requires
        s <= t,
    ensures
        file_offset(files, alignment, s, n) <= file_offset(files, alignment, t, n),
    decreases n,
{
    if n > 0 {
        let k = (n - 1) as nat;
        offset_monotone(files, alignment, s, t, k);
        let x = file_offset(files, alignment, s, k) as int;
        let y = file_offset(files, alignment, t, k) as int;
        if alignment > 0 {
            let a = alignment as int;
            crate::reader::aligned_bounds(a, x);
            crate::reader::aligned_bounds(a, y);
            let q = (y + a - 1) / a;
            assert(q * a == aligned(a, y));
            assert(q * a >= x);
        }
    }
}

/// The offsets of an archive that fits.
proof fn offset_bounds(m: AfsModel, base: nat)
    requires
        m.fits(base),
    ensures
        m.sorted().len() == m.files.len() < u32::MAX,
        m.header() <= u32::MAX,
        file_offset(
            m.sorted(),
            m.alignment as nat,
            header_len(m.files.len(), m.ids(), 2),
            m.files.len(),
        ) <= u32::MAX,
        forall|j: nat|
            j <= m.files.len() ==> #[trigger] file_offset(
                m.sorted(),
                m.alignment as nat,
                m.header(),
                j,
            ) <= u32::MAX,
        forall|j: nat|
            j <= m.files.len() ==> #[trigger] file_offset(
                m.sorted(),
                m.alignment as nat,
                base + m.header(),
                j,
            ) <= u32::MAX,
{
    let a = m.alignment as nat;
    let n = m.files.len();
    ordered_keeps(m.files);
    offset_grows(m.sorted(), a, m.header(), 0, n);
    assert(m.ids() * n >= 2 * n) by (nonlinear_arith)
        requires
            m.ids() >= 2,
    ;
    assert(2 * (n + 1) <= m.positions() * (n + 1)) by (nonlinear_arith)
        requires
            m.positions() >= 2,
    ;
    offset_monotone(m.sorted(), a, header_len(n, m.ids(), 2), m.header(), n);
    assert forall|j: nat| j <= n implies #[trigger] file_offset(m.sorted(), a, m.header(), j)
        <= u32::MAX by {
        offset_grows(m.sorted(), a, m.header(), j, n);
    }
    assert forall|j: nat| j <= n implies #[trigger] file_offset(
        m.sorted(),
        a,
        base + m.header(),
        j,
    ) <= u32::MAX by {
        offset_grows(m.sorted(), a, base + m.header(), j, n);
    }
}

proof fn ids_bytes_len(files: Seq<AfsFile>, size: nat, n: nat)
    requires
        size == 2 || size == 4,
    ensures
        ids_bytes(files, size, n).len() == n * size,
    decreases n,
{
    if n > 0 {
        ids_bytes_len(files, size, (n - 1) as nat);
        assert(n * size == (n - 1) * size + size) by (nonlinear_arith)
            requires
                n >= 1,
        ;
    } else {
        assert(0 * size == 0) by (nonlinear_arith);
    }
}

proof fn offsets_bytes_len(files: Seq<AfsFile>, alignment: nat, start: nat, size: nat, n: nat)
    requires
        size == 2 || size == 4,
    ensures
        offsets_bytes(files, alignment, start, size, n).len() == n * size,
    decreases n,
{
    if n > 0 {
        offsets_bytes_len(files, alignment, start, size, (n - 1) as nat);
        assert(n * size == (n - 1) * size + size) by (nonlinear_arith)
            requires
                n >= 1,
        ;
    } else {
        assert(0 * size == 0) by (nonlinear_arith);
    }
}

/// Why an archive or a file of it could not be read.
#[derive(Clone, Copy, PartialEq, Eq, Structural, Debug)]
pub enum AfsError {
    Io(IoError),
    BadMagic(u32),
    UnsupportedFieldSize(u8),
    NotFound(i32),
}

/// The letters `AFS2`, least significant byte first.
pub const AFS2_MAGIC: u32 = 0x3253_4641;

/// What an archive holds.
pub struct ArchiveModel {
    pub alignment: u32,
    pub subkey: u16,
    pub ids: Seq<u32>,
    pub offsets: Seq<u32>,
    pub data: Seq<u8>,
}

/// The number in two or four bytes at `pos`.
pub open spec fn sized_at(d: Seq<u8>, pos: nat, size: nat) -> u32 {
    if size == 2 {
        u16_le(d.subrange(pos as int, (pos + 2) as int)) as u32
    } else {
        u32_le(d.subrange(pos as int, (pos + 4) as int))
    }
}

/// The archive that bytes hold, or why they hold none.
pub open spec fn archive_of(d: Seq<u8>) -> Result<ArchiveModel, AfsError> {
    if d.len() < 4 {
        Err(AfsError::Io(IoError::UnexpectedEof))
    } else if u32_le(d.subrange(0, 4)) != AFS2_MAGIC {
        Err(AfsError::BadMagic(u32_le(d.subrange(0, 4))))
    } else if d.len() < 16 {
        Err(AfsError::Io(IoError::UnexpectedEof))
    } else {
        let positions = d[5];
        let ids = d[6];
        let count = u32_le(d.subrange(8, 12)) as nat;
        if positions != 2 && positions != 4 {
            Err(AfsError::UnsupportedFieldSize(positions))
        } else if ids != 2 && ids != 4 {
            Err(AfsError::UnsupportedFieldSize(ids))
        } else if header_len(count, ids as nat, positions as nat) > d.len() {
            Err(AfsError::Io(IoError::UnexpectedEof))
        } else {
            let table = 16 + ids as nat * count;
            Ok(
                ArchiveModel {
                    alignment: u16_le(d.subrange(12, 14)) as u32,
                    subkey: u16_le(d.subrange(14, 16)),
                    ids: Seq::new(count, |i: int| sized_at(d, (16 + ids * i) as nat, ids as nat)),
                    offsets: Seq::new(
                        count + 1,
                        |i: int| sized_at(d, (table + positions * i) as nat, positions as nat),
                    ),
                    data: d,
                },
            )
        }
    }
}

/// The first place of an id, from `from` on.
pub open spec fn place_of(ids: Seq<u32>, id: i32, from: nat) -> Option<nat>
    decreases ids.len() - from,
{
    if from >= ids.len() {
        None
    } else if ids[from as int] == id {
        Some(from)
    } else {
        place_of(ids, id, from + 1)
    }
}

impl ArchiveModel {
    /// The bytes of the first file with an id.
    pub open spec fn file(self, id: i32) -> Result<Seq<u8>, AfsError> {
        match place_of(self.ids, id, 0) {
            None => Err(AfsError::NotFound(id)),
            Some(i) => {
                let o = self.offsets[i as int] as int;
                let start = o + padding(o, self.alignment as int);
                let end = self.offsets[(i + 1) as int] as int;
                if start <= end <= self.data.len() {
                    Ok(self.data.subrange(start, end))
                } else {
                    Err(AfsError::Io(IoError::UnexpectedEof))
                }
            },
        }
    }
}

/// An AFS2 archive in memory.
#[derive(Debug)]
pub struct AfsArchive {
    pub alignment: u32,
    pub subkey: u16,
    ids: Vec<u32>,
    offsets: Vec<u32>,
    data: Vec<u8>,
}

impl View for AfsArchive {
    type V = ArchiveModel;

    closed spec fn view(&self) -> ArchiveModel {
        ArchiveModel {
            alignment: self.alignment,
            subkey: self.subkey,
            ids: self.ids@,
            offsets: self.offsets@,
            data: self.data@,
        }
    }
}

impl AfsArchive {
    /// Whether there is an offset behind every file.
    pub closed spec fn wf(&self) -> bool {
        self.offsets@.len() == self.ids@.len() + 1
    }

    /// Reads the header of an archive, which starts at the first byte.
    pub fn new(r: Cursor) -> (o: Result<Self, AfsError>)
        ensures
            match archive_of(r.data()) {
                Ok(m) => o is Ok && o->Ok_0@ == m && o->Ok_0.wf(),
                Err(e) => o == Err::<Self, AfsError>(e),
            },
    {
        let data = r.into_inner();
        let d = data.as_slice();
        if d.len() < 4 {
            return Err(AfsError::Io(IoError::UnexpectedEof));
        }
        let magic: u32 = read_sized(d, 0, 4);
        if magic != AFS2_MAGIC {
            return Err(AfsError::BadMagic(magic));
        }
        if d.len() < 16 {
            return Err(AfsError::Io(IoError::UnexpectedEof));
        }
        let positions: u8 = d[5];
        let ids: u8 = d[6];
        let count: u32 = read_sized(d, 8, 4);
        let alignment: u32 = read_sized(d, 12, 2);
        let subkey: u32 = read_sized(d, 14, 2);
        if positions != 2 && positions != 4 {
            return Err(AfsError::UnsupportedFieldSize(positions));
        }
        if ids != 2 && ids != 4 {
            return Err(AfsError::UnsupportedFieldSize(ids));
        }
        assert(ids * count <= 4 * count) by (nonlinear_arith)
            requires
                ids <= 4,
        ;
        assert(positions * (count + 1) <= 4 * (count + 1)) by (nonlinear_arith)
            requires
                positions <= 4,
        ;
        let table: u64 = 16 + ids as u64 * count as u64;
        let header: u64 = table + positions as u64 * (count as u64 + 1);
        assert(header == header_len(count as nat, ids as nat, positions as nat));
        if header > d.len() as u64 {
            return Err(AfsError::Io(IoError::UnexpectedEof));
        }
        assert(positions * (count + 1) >= 0) by (nonlinear_arith)
            requires
                positions >= 0,
                count >= 0,
        ;
        let id_list = read_list(d, 16, ids, count as u64);
        let offset_list = read_list(d, table as usize, positions, count as u64 + 1);
        let o = AfsArchive {
            alignment,
            subkey: subkey as u16,
            ids: id_list,
            offsets: offset_list,
            data,
        };
        assert(o@.ids =~= archive_of(r.data())->Ok_0.ids);
        assert(o@.offsets =~= archive_of(r.data())->Ok_0.offsets);
        Ok(o)
    }

    /// The subkey.
    pub fn subkey_value(&self) -> (r: u16)
        ensures
            r == self@.subkey,
    {
        self.subkey
    }

    /// A copy of the bytes of the first file with an id.
    pub fn file_data_for_cue_id(&self, cue_id: i32) -> (o: Result<Vec<u8>, AfsError>)
        requires
            self.wf(),
        ensures
            match self@.file(cue_id) {
                Ok(b) => o is Ok && o->Ok_0@ == b,
                Err(e) => o == Err::<Vec<u8>, AfsError>(e),
            },
    {
        let mut i: usize = 0;
        while i < self.ids.len()
            invariant
                i <= self.ids@.len(),
                self.wf(),
                place_of(self@.ids, cue_id, 0) == place_of(self@.ids, cue_id, i as nat),
            decreases self.ids@.len() - i,
        {
            if self.ids[i] as i64 == cue_id as i64 {
                assert(place_of(self@.ids, cue_id, i as nat) == Some(i as nat));
                let o: u64 = self.offsets[i] as u64;
                proof {
                    if self.alignment > 0 {
                        crate::reader::aligned_bounds(self.alignment as int, o as int);
                    }
                }
                let start: u64 = align_to_u64(o, self.alignment as u64);
                let end: u64 = self.offsets[i + 1] as u64;
                if start <= end && end <= self.data.len() as u64 {
                    let b = crate::bytes::copy_range(
                        self.data.as_slice(),
                        start as usize,
                        end as usize,
                    );
                    return Ok(b);
                }
                return Err(AfsError::Io(IoError::UnexpectedEof));
            }
            i += 1;
        }
        Err(AfsError::NotFound(cue_id))
    }
}

/// The number in two or four bytes at `pos`.
fn read_sized(d: &[u8], pos: usize, size: u8) -> (r: u32)
    requires
        size == 2 || size == 4,
        pos + size <= d@.len(),
    ensures
        r == sized_at(d@, pos as nat, size as nat),
        size == 2 ==> r == u16_le(d@.subrange(pos as int, pos + 2)),
        size == 4 ==> r == u32_le(d@.subrange(pos as int, pos + 4)),
{
    assert(d@.len() == d.len());
    let b = crate::bytes::copy_range(d, pos, pos + size as usize);
    if size == 2 {
        crate::bytes::read_u16_le(b.as_slice()) as u32
    } else {
        crate::bytes::read_u32_le(b.as_slice())
    }
}

/// `count` numbers of two or four bytes from `pos` on.
fn read_list(d: &[u8], pos: usize, size: u8, count: u64) -> (r: Vec<u32>)
    requires
        size == 2 || size == 4,
        pos + size * count <= d@.len(),
    ensures
        r@ == Seq::new(
            count as nat,
            |i: int| sized_at(d@, (pos + size * i) as nat, size as nat),
        ),
{
    let mut out: Vec<u32> = Vec::new();
    let mut i: u64 = 0;
    let mut at: usize = pos;
    while i < count
        invariant
            i <= count,
            size == 2 || size == 4,
            pos + size * count <= d@.len(),
            at == pos + size * i,
            out@ =~= Seq::new(
                i as nat,
                |j: int| sized_at(d@, (pos + size * j) as nat, size as nat),
            ),
        decreases count - i,
    {
        assert(size * (i + 1) <= size * count && size * (i + 1) == size * i + size)
            by (nonlinear_arith)
            requires
                i + 1 <= count,
                size >= 0,
        ;
        assert(d@.len() == d.len());
        out.push(read_sized(d, at, size));
        at = at + size as usize;
        i += 1;
    }
    out
}

/// The archive as it is read back.
pub open spec fn archive_back(m: AfsModel) -> ArchiveModel {
    let n = m.files.len();
    ArchiveModel {
        alignment: m.alignment,
        subkey: m.subkey,
        ids: Seq::new(n, |i: int| m.sorted()[i].0),
        offsets: Seq::new(
            n + 1,
            |i: int| file_offset(m.sorted(), m.alignment as nat, m.header(), i as nat) as u32,
        ),
        data: m.bytes(0),
    }
}

/// A small number comes back from its sized bytes.
proof fn sized_back(v: nat, size: nat)
    requires
        size == 2 || size == 4,
        v <= u32::MAX,
        size == 2 ==> v <= 0xFFFF,
    ensures
        sized_le(v, size).len() == size,
        sized_at(sized_le(v, size), 0, size) == v,
{
    let b = sized_le(v, size);
    assert(b.subrange(0, size as int) =~= b);
    crate::bytes::le_round_trip((v % 0x1_0000) as u16, (v % 0x1_0000_0000) as u32);
}

/// A number stands where its bytes stand.
proof fn sized_stands(d: Seq<u8>, pos: nat, v: nat, size: nat)
    requires
        size == 2 || size == 4,
        v <= u32::MAX,
        size == 2 ==> v <= 0xFFFF,
        pos + size <= d.len(),
        d.subrange(pos as int, (pos + size) as int) == sized_le(v, size),
    ensures
        sized_at(d, pos, size) == v,
{
    sized_back(v, size);
    let b = sized_le(v, size);
    assert(b.subrange(0, size as int) =~= b);
}

/// Id `i` stands among the ids.
proof fn id_stands(files: Seq<AfsFile>, size: nat, n: nat, i: nat)
    requires
        size == 2 || size == 4,
        i < n,
    ensures
        ({
            let b = ids_bytes(files, size, n);
            &&& size * i + size <= b.len()
            &&& b.subrange((size * i) as int, (size * i + size) as int) == sized_le(
                files[i as int].0 as nat,
                size,
            )
        }),
    decreases n,
{
    let k = (n - 1) as nat;
    let b = ids_bytes(files, size, n);
    let a = ids_bytes(files, size, k);
    ids_bytes_len(files, size, k);
    ids_bytes_len(files, size, n);
    assert(size * i + size <= n * size && k * size == n * size - size && size * k == k * size)
        by (nonlinear_arith)
        requires
            i + 1 <= n,
            k == n - 1,
            size >= 0,
    ;
    if i == k {
        assert(b.subrange((size * i) as int, (size * i + size) as int) =~= sized_le(
            files[i as int].0 as nat,
            size,
        ));
    } else {
        id_stands(files, size, k, i);
        assert(b.subrange((size * i) as int, (size * i + size) as int) =~= a.subrange(
            (size * i) as int,
            (size * i + size) as int,
        ));
    }
}

/// Offset `i` stands among the offsets.
proof fn offset_stands(files: Seq<AfsFile>, alignment: nat, start: nat, size: nat, n: nat, i: nat)
    requires
        size == 2 || size == 4,
        i < n,
    ensures
        ({
            let b = offsets_bytes(files, alignment, start, size, n);
            &&& size * i + size <= b.len()
            &&& b.subrange((size * i) as int, (size * i + size) as int) == sized_le(
                file_offset(files, alignment, start, i),
                size,
            )
        }),
    decreases n,
{
    let k = (n - 1) as nat;
    let b = offsets_bytes(files, alignment, start, size, n);
    let a = offsets_bytes(files, alignment, start, size, k);
    offsets_bytes_len(files, alignment, start, size, k);
    offsets_bytes_len(files, alignment, start, size, n);
    assert(size * i + size <= n * size && k * size == n * size - size && size * k == k * size)
        by (nonlinear_arith)
        requires
            i + 1 <= n,
            k == n - 1,
            size >= 0,
    ;
    if i == k {
        assert(b.subrange((size * i) as int, (size * i + size) as int) =~= sized_le(
            file_offset(files, alignment, start, i),
            size,
        ));
    } else {
        offset_stands(files, alignment, start, size, k, i);
        assert(b.subrange((size * i) as int, (size * i + size) as int) =~= a.subrange(
            (size * i) as int,
            (size * i + size) as int,
        ));
    }
}

/// File `k` stands behind its padding.
proof fn file_stands(files: Seq<AfsFile>, alignment: nat, start: nat, n: nat, k: nat)
    requires
        k < n,
    ensures
        ({
            let b = files_bytes(files, alignment, start, n);
            let o = file_offset(files, alignment, start, k);
            let from = o + padding(o as int, alignment as int) - start;
            &&& 0 <= from
            &&& from + files[k as int].1.len() <= b.len()
            &&& b.subrange(from, from + files[k as int].1.len()) == files[k as int].1
            &&& b.len() == file_offset(files, alignment, start, n) - start
        }),
    decreases n,
{
    let j = (n - 1) as nat;
    let b = files_bytes(files, alignment, start, n);
    let a = files_bytes(files, alignment, start, j);
    let o = file_offset(files, alignment, start, k);
    let from = o + padding(o as int, alignment as int) - start;
    files_bytes_len(files, alignment, start, j);
    if k == j {
        assert(b.subrange(from, from + files[k as int].1.len()) =~= files[k as int].1);
    } else {
        file_stands(files, alignment, start, j, k);
        assert(b.subrange(from, from + files[k as int].1.len()) =~= a.subrange(
            from,
            from + files[k as int].1.len(),
        ));
    }
}

proof fn files_bytes_len(files: Seq<AfsFile>, alignment: nat, start: nat, n: nat)
    ensures
        files_bytes(files, alignment, start, n).len() == file_offset(files, alignment, start, n)
            - start,
    decreases n,
{
    if n > 0 {
        files_bytes_len(files, alignment, start, (n - 1) as nat);
    }
}

/// The parts of an archive stand one after the other.
proof fn archive_parts(m: AfsModel)
    requires
        m.fits(0),
        m.alignment <= 0xFFFF,
    ensures
        ({
            let d = m.bytes(0);
            let n = m.files.len();
            let a = m.alignment as nat;
            let ids = ids_bytes(m.sorted(), m.ids(), n);
            let offs = offsets_bytes(m.sorted(), a, m.header(), m.positions(), n + 1);
            let table = (16 + m.ids() * n) as int;
            &&& d.len() == m.end_from(m.header())
            &&& m.header() <= d.len()
            &&& d.subrange(16, table) == ids
            &&& d.subrange(table, m.header() as int) == offs
            &&& d.subrange(m.header() as int, d.len() as int) == files_bytes(
                m.sorted(),
                a,
                m.header(),
                n,
            )
            &&& u32_le(d.subrange(0, 4)) == AFS2_MAGIC
            &&& d[5] == m.positions()
            &&& d[6] == m.ids()
            &&& u32_le(d.subrange(8, 12)) == n
            &&& u16_le(d.subrange(12, 14)) == m.alignment
            &&& u16_le(d.subrange(14, 16)) == m.subkey
        }),
{
    let d = m.bytes(0);
    let n = m.files.len();
    let a = m.alignment as nat;
    let table = (16 + m.ids() * n) as int;
    let ids = ids_bytes(m.sorted(), m.ids(), n);
    let offs = offsets_bytes(m.sorted(), a, m.header(), m.positions(), n + 1);
    offset_bounds(m, 0);
    ids_bytes_len(m.sorted(), m.ids(), n);
    offsets_bytes_len(m.sorted(), a, m.header(), m.positions(), n + 1);
    files_bytes_len(m.sorted(), a, m.header(), n);
    offset_grows(m.sorted(), a, m.header(), 0, n);
    assert(n * m.ids() == m.ids() * n) by (nonlinear_arith);
    assert((n + 1) * m.positions() == m.positions() * (n + 1)) by (nonlinear_arith);
    prologue_fields(m);
    assert(0 + m.header() == m.header());
    assert(d.subrange(16, table) =~= ids);
    assert(d.subrange(table, m.header() as int) =~= offs);
    assert(d.subrange(m.header() as int, d.len() as int) =~= files_bytes(
        m.sorted(),
        a,
        m.header(),
        n,
    ));
    let p = m.prologue();
    assert(d.subrange(0, 4) =~= p.subrange(0, 4));
    assert(d.subrange(8, 12) =~= p.subrange(8, 12));
    assert(d.subrange(12, 14) =~= p.subrange(12, 14));
    assert(d.subrange(14, 16) =~= p.subrange(14, 16));
    assert(d[5] == p[5] && d[6] == p[6]);
}

/// The fields of the fixed part of a header.
proof fn prologue_fields(m: AfsModel)
    requires
        m.files.len() <= u32::MAX,
        m.alignment <= 0xFFFF,
    ensures
        ({
            let p = m.prologue();
            &&& p.len() == 16
            &&& u32_le(p.subrange(0, 4)) == AFS2_MAGIC
            &&& p[5] == m.positions()
            &&& p[6] == m.ids()
            &&& u32_le(p.subrange(8, 12)) == m.files.len()
            &&& u16_le(p.subrange(12, 14)) == m.alignment
            &&& u16_le(p.subrange(14, 16)) == m.subkey
        }),
{
    let p = m.prologue();
    let n = m.files.len();
    let mode: nat = if m.subkey != 0 { 2 } else { 1 };
    let flags = (mode + m.positions() * 0x100 + m.ids() * 0x1_0000) as u32;
    crate::bytes::le_round_trip(m.alignment as u16, n as u32);
    crate::bytes::le_round_trip(m.subkey, 0);
    assert(p.subrange(0, 4) =~= seq![0x41u8, 0x46, 0x53, 0x32]);
    assert(p.subrange(8, 12) =~= le32(n as u32));
    assert(p.subrange(12, 14) =~= le16(m.alignment as u16));
    assert(p.subrange(14, 16) =~= le16(m.subkey));
    assert(p[5] == le32(flags)[1]);
    assert(p[6] == le32(flags)[2]);
}

/// Reading a built archive gives back its alignment, its subkey, the ids in
/// order and where each file stands.
pub proof fn archive_reads_back(m: AfsModel)
    requires
        m.fits(0),
        m.alignment <= 0xFFFF,
    ensures
        archive_of(m.bytes(0)) == Ok::<ArchiveModel, AfsError>(archive_back(m)),
{
    let d = m.bytes(0);
    let n = m.files.len();
    let a = m.alignment as nat;
    let table = 16 + m.ids() * n;
    let ids = ids_bytes(m.sorted(), m.ids(), n);
    let offs = offsets_bytes(m.sorted(), a, m.header(), m.positions(), n + 1);
    archive_parts(m);
    offset_bounds(m, 0);
    let back = archive_of(d)->Ok_0;
    assert(archive_of(d) is Ok);
    assert forall|i: int| 0 <= i < n implies back.ids[i] == m.sorted()[i].0 by {
        id_stands(m.sorted(), m.ids(), n, i as nat);
        let at = (m.ids() * i) as int;
        assert(d.subrange(16 + at, 16 + at + m.ids()) =~= ids.subrange(at, at + m.ids()));
        sized_stands(d, (16 + at) as nat, m.sorted()[i].0 as nat, m.ids());
    }
    assert forall|i: int| 0 <= i <= n implies back.offsets[i] == file_offset(
        m.sorted(),
        a,
        m.header(),
        i as nat,
    ) by {
        offset_stands(m.sorted(), a, m.header(), m.positions(), n + 1, i as nat);
        let at = (m.positions() * i) as int;
        let from = table + at;
        assert(d.subrange(from, from + m.positions()) =~= offs.subrange(at, at + m.positions()));
        offset_grows(m.sorted(), a, m.header(), i as nat, n);
        assert(file_offset(m.sorted(), a, m.header(), i as nat) <= u32::MAX);
        sized_stands(
            d,
            from as nat,
            file_offset(m.sorted(), a, m.header(), i as nat),
            m.positions(),
        );
    }
    assert(back.ids =~= archive_back(m).ids);
    assert(back.offsets =~= archive_back(m).offsets);
}

/// The archive gives back the bytes of each file whose id no earlier file has.
pub proof fn file_reads_back(m: AfsModel, k: nat)
    requires
        m.fits(0),
        m.alignment <= 0xFFFF,
        k < m.files.len(),
        m.sorted()[k as int].0 <= i32::MAX,
        forall|j: int| 0 <= j < k ==> (#[trigger] m.sorted()[j]).0 != m.sorted()[k as int].0,
    ensures
        archive_back(m).file(m.sorted()[k as int].0 as i32) == Ok::<Seq<u8>, AfsError>(
            m.sorted()[k as int].1,
        ),
{
    let d = m.bytes(0);
    let n = m.files.len();
    let a = m.alignment as nat;
    let b = archive_back(m);
    let id = m.sorted()[k as int].0 as i32;
    archive_parts(m);
    offset_bounds(m, 0);
    place_found(b.ids, id, 0, k);
    file_stands(m.sorted(), a, m.header(), n, k);
    offset_grows(m.sorted(), a, m.header(), k + 1, n);
    let o = file_offset(m.sorted(), a, m.header(), k) as int;
    assert(file_offset(m.sorted(), a, m.header(), k) <= u32::MAX);
    assert(file_offset(m.sorted(), a, m.header(), k + 1) <= u32::MAX);
    assert(b.offsets[k as int] == o);
    let start = o + padding(o, a as int);
    let end = b.offsets[(k + 1) as int] as int;
    assert(end == start + m.sorted()[k as int].1.len());
    let part = files_bytes(m.sorted(), a, m.header(), n);
    assert(d.subrange(start, end) =~= part.subrange(start - m.header(), end - m.header()));
}

proof fn place_found(ids: Seq<u32>, id: i32, from: nat, k: nat)
    requires
        from <= k < ids.len(),
        ids[k as int] == id,
        forall|j: int| from <= j < k ==> ids[j] != id,
    ensures
        place_of(ids, id, from) == Some(k),
    decreases k - from,
{
    if from < k {
        place_found(ids, id, from + 1, k);
    }
}

} // verus!
