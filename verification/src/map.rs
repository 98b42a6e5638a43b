//! The map: a header with magic and version, the number of sectors, then
//! each sector in a length-prefixed block of its own.

use crate::sector::{lemma_sector_round_trip, Sector, SectorView};
use crate::wire::{
    get_u32, get_u64, lemma_take_block, lemma_take_block_truncated, put_block, put_u32, put_u64,
    spec_block, spec_take_block, take_block, to_native,
};
use crate::Error;
use vstd::bytes::*;
use vstd::prelude::*;
use vstd::slice::slice_subrange;

verus! {

/// The current version of the file format
pub const CURRENT_VERSION: u32 = 1;

/// The size of the header: the magic and the version
pub const HEADER_SIZE: usize = 8;

/// The size of what stands before the first sector: the header and the
/// number of sectors
pub const PREAMBLE_SIZE: usize = 16;

/// The magic that a map starts with: the ASCII letters `MIME`.
pub open spec fn spec_magic() -> Seq<u8> {
    seq![0x4du8, 0x49u8, 0x4du8, 0x45u8]
}

/// The map: its sectors, in order.
#[derive(Clone, Debug, PartialEq, Eq)]
pub struct Mime {
    /// The sectors of the map
    pub sectors: Vec<Sector>,
}

/// What a map holds, as a mathematical sequence.
pub struct MimeView {
    /// The sectors, in order
    pub sectors: Seq<SectorView>,
}

/// The views of the sectors `v`, in order.
pub open spec fn spec_sector_views(v: Seq<Sector>) -> Seq<SectorView> {
    Seq::new(v.len(), |i: int| v[i]@)
}

impl View for Mime {
    type V = MimeView;

    open spec fn view(&self) -> MimeView {
        MimeView { sectors: spec_sector_views(self.sectors@) }
    }
}

/// The blocks of the sectors `ss`, one after the other.
pub open spec fn spec_encode_sectors(ss: Seq<SectorView>) -> Seq<u8>
    decreases ss.len(),
{
    if ss.len() == 0 {
        Seq::empty()
    } else {
        spec_encode_sectors(ss.drop_last()) + spec_block(ss.last().spec_encode())
    }
}

/// Takes a length-prefixed block off the bytes `s` and decodes the sector
/// in it: the sector, and what follows the block.
pub open spec fn spec_take_sector(s: Seq<u8>) -> Result<(SectorView, Seq<u8>), Error> {
    match spec_take_block(s, Error::BufferToSmallMap) {
        Err(e) => Err(e),
        Ok((block, rest)) => match SectorView::spec_decode(block) {
            Err(e) => Err(e),
            Ok(sector) => Ok((sector, rest)),
        },
    }
}

/// Takes `n` sectors, one after the other, off the bytes `s`: the sectors
/// in order, or the first error met on the way.
pub open spec fn spec_decode_sectors(s: Seq<u8>, n: nat) -> Result<Seq<SectorView>, Error>
    decreases n,
{
    if n == 0 {
        Ok(Seq::empty())
    } else {
        match spec_take_sector(s) {
            Err(e) => Err(e),
            Ok((sector, rest)) => spec_after(seq![sector], spec_decode_sectors(rest, (n - 1) as nat)),
        }
    }
}

/// The sectors `done` followed by those of `later`, or the error of `later`.
pub open spec fn spec_after(done: Seq<SectorView>, later: Result<Seq<SectorView>, Error>) -> Result<
    Seq<SectorView>,
    Error,
> {
    match later {
        Err(e) => Err(e),
        Ok(more) => Ok(done + more),
    }
}

impl MimeView {
    /// Whether the number of sectors, each sector, and the encoding of each
    /// sector fit the native size, as those of a map that was encoded in
    /// memory do.
    pub open spec fn fits(self) -> bool {
        &&& self.sectors.len() <= usize::MAX
        &&& forall|i: int|
            0 <= i < self.sectors.len() ==> (#[trigger] self.sectors[i]).fits()
                && self.sectors[i].spec_encode().len() <= usize::MAX
    }

    /// The bytes of a map: the magic, the version as a 32-bit and the
    /// number of sectors as a 64-bit little-endian integer, then each sector
    /// as a block prefixed by its length in bytes.
    pub open spec fn spec_encode(self) -> Seq<u8> {
        spec_magic() + spec_u32_to_le_bytes(CURRENT_VERSION) + spec_u64_to_le_bytes(
            self.sectors.len() as u64,
        ) + spec_encode_sectors(self.sectors)
    }

    /// The version that the bytes `s` claim.
    pub open spec fn spec_version(s: Seq<u8>) -> u32 {
        spec_u32_from_le_bytes(s.subrange(4, 8))
    }

    /// The number of sectors that the bytes `s` claim.
    pub open spec fn spec_sector_count(s: Seq<u8>) -> u64 {
        spec_u64_from_le_bytes(s.subrange(8, 16))
    }

    /// What decoding the bytes `s` gives. In this order: the buffer is too
    /// small when it cannot hold the header; the magic is incorrect when the
    /// first four bytes are not `MIME`; the version is incorrect when it is
    /// not the current one; the buffer is too small when it cannot hold the
    /// number of sectors; a number that does not fit the native size is a
    /// conversion error. Then that many sectors are taken off their blocks
    /// in turn; the buffer is too small when the prefix of a block is cut
    /// short or claims more bytes than are left. Bytes after the last block
    /// are ignored.
    pub open spec fn spec_decode(s: Seq<u8>) -> Result<MimeView, Error> {
        if s.len() < HEADER_SIZE {
            Err(Error::BufferToSmallMap)
        } else if s.subrange(0, 4) != spec_magic() {
            Err(Error::IncorrectMagic)
        } else if Self::spec_version(s) != CURRENT_VERSION {
            Err(Error::IncorrectVersion)
        } else if s.len() < PREAMBLE_SIZE {
            Err(Error::BufferToSmallMap)
        } else if Self::spec_sector_count(s) > usize::MAX {
            Err(Error::IntegerConvertionError)
        } else {
            match spec_decode_sectors(
                s.subrange(PREAMBLE_SIZE as int, s.len() as int),
                Self::spec_sector_count(s) as nat,
            ) {
                Err(e) => Err(e),
                Ok(sectors) => Ok(MimeView { sectors }),
            }
        }
    }
}

/// Takes a length-prefixed block off `buffer` and decodes the sector in it.
fn take_sector<'a>(buffer: &'a [u8]) -> (r: Result<(Sector, &'a [u8]), Error>)
    ensures
        match r {
            Ok((sector, rest)) => spec_take_sector(buffer@) == Ok::<(SectorView, Seq<u8>), Error>(
                (sector@, rest@),
            ),
            Err(e) => spec_take_sector(buffer@) == Err::<(SectorView, Seq<u8>), Error>(e),
        },
{
    let (block, rest) = match take_block(buffer, Error::BufferToSmallMap) {
        Ok(parts) => parts,
        Err(e) => { return Err(e); },
    };
    match Sector::deserialize(block) {
        Ok(sector) => Ok((sector, rest)),
        Err(e) => Err(e),
    }
}

impl Mime {
    /// Creates a map from its sectors.
    pub fn new(sectors: Vec<Sector>) -> (m: Self)
        ensures
            m.sectors == sectors,
    {
        Self { sectors }
    }

    /// Appends the encoding of the map to `buffer`. Never fails: a count
    /// and a length always fit 64 bits. What was appended decodes to the
    /// map.
    pub fn serialize(&self, buffer: &mut Vec<u8>) -> (r: Result<(), Error>)
        ensures
            r is Ok,
            final(buffer)@ == old(buffer)@ + self@.spec_encode(),
            self@.fits(),
            MimeView::spec_decode(self@.spec_encode()) == Ok::<MimeView, Error>(self@),
    {
        let ghost start = buffer@;
        let ghost views = self@.sectors;
        buffer.push(0x4d);
        buffer.push(0x49);
        buffer.push(0x4d);
        buffer.push(0x45);
        put_u32(buffer, CURRENT_VERSION);
        let count = self.sectors.len();
        put_u64(buffer, count as u64);
        let ghost head = buffer@;

        let mut i: usize = 0;
        while i < count
            invariant
                i <= count,
                count == self.sectors@.len(),
                views == spec_sector_views(self.sectors@),
                buffer@ == head + spec_encode_sectors(views.take(i as int)),
                forall|k: int|
                    0 <= k < i ==> (#[trigger] views[k]).fits() && views[k].spec_encode().len()
                        <= usize::MAX,
            decreases count - i,
        {
            let sector = &self.sectors[i];
            let mut block: Vec<u8> = Vec::new();
            let _ = sector.serialize(&mut block);
            proof {
                assert(block@ =~= sector@.spec_encode());
                assert(block@.len() == block.len());
                let next = views.take(i + 1);
                assert(next.drop_last() =~= views.take(i as int));
                assert(next.last() == sector@);
            }
            put_block(buffer, &mut block);
            proof {
                assert(buffer@ =~= head + spec_encode_sectors(views.take(i + 1)));
            }
            i = i + 1;
        }
        proof {
            assert(views.take(count as int) =~= views);
            assert(buffer@ =~= start + self@.spec_encode());
            lemma_map_round_trip(self@);
        }
        Ok(())
    }

    /// Decodes the map that `buffer` starts with.
    pub fn deserialize(buffer: &[u8]) -> (r: Result<Self, Error>)
        ensures
            match r {
                Ok(m) => MimeView::spec_decode(buffer@) == Ok::<MimeView, Error>(m@),
                Err(e) => MimeView::spec_decode(buffer@) == Err::<MimeView, Error>(e),
            },
    {
        if buffer.len() < HEADER_SIZE {
            return Err(Error::BufferToSmallMap);
        }
        if buffer[0] != 0x4d || buffer[1] != 0x49 || buffer[2] != 0x4d || buffer[3] != 0x45 {
            proof {
                let magic = buffer@.subrange(0, 4);
                assert(magic[0] == buffer@[0] && magic[1] == buffer@[1] && magic[2] == buffer@[2]
                    && magic[3] == buffer@[3]);
            }
            return Err(Error::IncorrectMagic);
        }
        assert(buffer@.subrange(0, 4) =~= spec_magic());
        if get_u32(buffer, 4) != CURRENT_VERSION {
            return Err(Error::IncorrectVersion);
        }
        if buffer.len() < PREAMBLE_SIZE {
            return Err(Error::BufferToSmallMap);
        }
        let count = match to_native(get_u64(buffer, 8)) {
            Ok(n) => n,
            Err(e) => { return Err(e); },
        };
        let body = slice_subrange(buffer, PREAMBLE_SIZE, buffer.len());
        let ghost want = spec_decode_sectors(body@, count as nat);

        let mut sectors: Vec<Sector> = Vec::new();
        let mut rest = body;
        let mut i: usize = 0;
        while i < count
            invariant
                i <= count,
                sectors@.len() == i,
                MimeView::spec_decode(buffer@) == match want {
                    Err(e) => Err::<MimeView, Error>(e),
                    Ok(sectors) => Ok(MimeView { sectors }),
                },
                want == spec_after(
                    spec_sector_views(sectors@),
                    spec_decode_sectors(rest@, (count - i) as nat),
                ),
            decreases count - i,
        {
            let ghost done = spec_sector_views(sectors@);
            let (sector, after) = match take_sector(rest) {
                Ok(parts) => parts,
                Err(e) => { return Err(e); },
            };
            sectors.push(sector);
            proof {
                let later = spec_decode_sectors(after@, (count - i - 1) as nat);
                assert(spec_sector_views(sectors@) =~= done + seq![sector@]);
                if let Ok(more) = later {
                    assert(done + (seq![sector@] + more) =~= (done + seq![sector@]) + more);
                }
            }
            rest = after;
            i = i + 1;
        }
        proof {
            assert(spec_sector_views(sectors@) + Seq::<SectorView>::empty() =~= spec_sector_views(
                sectors@,
            ));
        }
        Ok(Mime::new(sectors))
    }
}

/// Taking a sector off the block that holds its encoding, whatever follows
/// the block, gives the sector and what follows.
pub proof fn lemma_take_sector(sector: SectorView, tail: Seq<u8>)
    requires
        sector.fits(),
        sector.spec_encode().len() <= usize::MAX,
    ensures
        spec_take_sector(spec_block(sector.spec_encode()) + tail) == Ok::<
            (SectorView, Seq<u8>),
            Error,
        >((sector, tail)),
{
    lemma_take_block(sector.spec_encode(), tail, Error::BufferToSmallMap);
    lemma_sector_round_trip(sector);
}

/// The blocks of a sequence of sectors are the block of the first, then
/// the blocks of the others.
pub proof fn lemma_encode_sectors_front(ss: Seq<SectorView>)
    requires
        ss.len() > 0,
    ensures
        spec_encode_sectors(ss) == spec_block(ss.first().spec_encode()) + spec_encode_sectors(
            ss.drop_first(),
        ),
    decreases ss.len(),
{
    let first = spec_block(ss.first().spec_encode());
    let last = spec_block(ss.last().spec_encode());
    if ss.len() == 1 {
        assert(ss.drop_last() =~= Seq::<SectorView>::empty());
        assert(ss.drop_first() =~= Seq::<SectorView>::empty());
        assert(spec_encode_sectors(ss) =~= first + spec_encode_sectors(ss.drop_first()));
    } else {
        let init = ss.drop_last();
        lemma_encode_sectors_front(init);
        assert(init.drop_first() =~= ss.drop_first().drop_last());
        assert(spec_encode_sectors(ss) =~= first + (spec_encode_sectors(init.drop_first())
            + last));
    }
}

/// Taking as many sectors as were encoded off their blocks gives them back,
/// in order.
pub proof fn lemma_sectors_round_trip(ss: Seq<SectorView>)
    requires
        (MimeView { sectors: ss }).fits(),
    ensures
        spec_decode_sectors(spec_encode_sectors(ss), ss.len()) == Ok::<Seq<SectorView>, Error>(
            ss,
        ),
    decreases ss.len(),
{
    if ss.len() > 0 {
        let others = ss.drop_first();
        lemma_encode_sectors_front(ss);
        assert(ss.first() == ss[0]);
        lemma_take_sector(ss.first(), spec_encode_sectors(others));
        assert forall|i: int| 0 <= i < others.len() implies (#[trigger] others[i]).fits()
            && others[i].spec_encode().len() <= usize::MAX by {
            assert(others[i] == ss[i + 1]);
        }
        lemma_sectors_round_trip(others);
        assert(others.len() == ss.len() - 1);
        assert(seq![ss.first()] + others =~= ss);
    } else {
        assert(ss =~= Seq::<SectorView>::empty());
    }
}

/// Taking as many sectors as were encoded off a strict prefix of their
/// blocks fails, and the error says that the buffer is too small.
pub proof fn lemma_sectors_truncated(ss: Seq<SectorView>, n: int)
    requires
        (MimeView { sectors: ss }).fits(),
        0 <= n < spec_encode_sectors(ss).len(),
    ensures
        spec_decode_sectors(spec_encode_sectors(ss).take(n), ss.len()) == Err::<
            Seq<SectorView>,
            Error,
        >(Error::BufferToSmallMap),
    decreases ss.len(),
{
    if ss.len() > 0 {
        let others = ss.drop_first();
        let first = spec_block(ss.first().spec_encode());
        let cut = spec_encode_sectors(ss).take(n);
        lemma_encode_sectors_front(ss);
        assert(ss.first() == ss[0]);
        if n < first.len() {
            assert(cut =~= first.take(n));
            lemma_take_block_truncated(ss.first().spec_encode(), n, Error::BufferToSmallMap);
        } else {
            let k = n - first.len();
            assert(cut =~= first + spec_encode_sectors(others).take(k));
            lemma_take_sector(ss.first(), spec_encode_sectors(others).take(k));
            assert forall|i: int| 0 <= i < others.len() implies (#[trigger] others[i]).fits()
                && others[i].spec_encode().len() <= usize::MAX by {
                assert(others[i] == ss[i + 1]);
            }
            lemma_sectors_truncated(others, k);
        }
    }
}

/// What the encoding of a map starts with: the magic, the current version
/// and the number of sectors, in 16 bytes. Any prefix that holds a field
/// holds it unchanged.
pub proof fn lemma_map_preamble(m: MimeView, n: int)
    requires
        m.sectors.len() <= usize::MAX,
        0 <= n <= m.spec_encode().len(),
    ensures
        m.spec_encode().len() == PREAMBLE_SIZE + spec_encode_sectors(m.sectors).len(),
        n >= 4 ==> m.spec_encode().take(n).subrange(0, 4) == spec_magic(),
        n >= HEADER_SIZE ==> MimeView::spec_version(m.spec_encode().take(n)) == CURRENT_VERSION,
        n >= PREAMBLE_SIZE ==> MimeView::spec_sector_count(m.spec_encode().take(n))
            == m.sectors.len(),
        n >= PREAMBLE_SIZE ==> m.spec_encode().take(n).subrange(PREAMBLE_SIZE as int, n)
            == spec_encode_sectors(m.sectors).take(n - PREAMBLE_SIZE),
{
    lemma_auto_spec_u32_to_from_le_bytes();
    lemma_auto_spec_u64_to_from_le_bytes();
    let s = m.spec_encode().take(n);
    if n >= 4 {
        assert(s.subrange(0, 4) =~= spec_magic());
    }
    if n >= HEADER_SIZE {
        assert(s.subrange(4, 8) =~= spec_u32_to_le_bytes(CURRENT_VERSION));
    }
    if n >= PREAMBLE_SIZE {
        assert(s.subrange(8, 16) =~= spec_u64_to_le_bytes(m.sectors.len() as u64));
        assert(s.subrange(PREAMBLE_SIZE as int, n) =~= spec_encode_sectors(m.sectors).take(
            n - PREAMBLE_SIZE,
        ));
    }
}

/// Decoding the encoding of a map gives the map back: the same sectors, in
/// order.
pub proof fn lemma_map_round_trip(m: MimeView)
    requires
        m.fits(),
    ensures
        MimeView::spec_decode(m.spec_encode()) == Ok::<MimeView, Error>(m),
{
    let s = m.spec_encode();
    lemma_map_preamble(m, s.len() as int);
    assert(s.take(s.len() as int) =~= s);
    let body = spec_encode_sectors(m.sectors);
    assert(body.take(body.len() as int) =~= body);
    lemma_sectors_round_trip(m.sectors);
}

/// Decoding any strict prefix of the encoding of a map fails, and the error
/// says that the buffer is too small.
pub proof fn lemma_map_truncated(m: MimeView, n: int)
    requires
        m.fits(),
        0 <= n < m.spec_encode().len(),
    ensures
        MimeView::spec_decode(m.spec_encode().take(n)) == Err::<MimeView, Error>(
            Error::BufferToSmallMap,
        ),
{
    lemma_map_preamble(m, n);
    if n >= PREAMBLE_SIZE {
        lemma_sectors_truncated(m.sectors, n - PREAMBLE_SIZE);
    }
}

/// Decoding a buffer that holds a header whose first four bytes are not the
/// magic fails with an incorrect magic, whatever else the buffer holds.
pub proof fn lemma_map_incorrect_magic(s: Seq<u8>)
    requires
        s.len() >= HEADER_SIZE,
        s.subrange(0, 4) != spec_magic(),
    ensures
        MimeView::spec_decode(s) == Err::<MimeView, Error>(Error::IncorrectMagic),
{
}

/// Decoding a buffer that starts with the magic and holds a version other
/// than the current one fails with an incorrect version, whatever else the
/// buffer holds.
pub proof fn lemma_map_incorrect_version(s: Seq<u8>)
    requires
        s.len() >= HEADER_SIZE,
        s.subrange(0, 4) == spec_magic(),
        MimeView::spec_version(s) != CURRENT_VERSION,
    ensures
        MimeView::spec_decode(s) == Err::<MimeView, Error>(Error::IncorrectVersion),
{
}

/// The encoding of a map without sectors takes 16 bytes, and decoding it
/// gives a map without sectors.
pub proof fn lemma_map_empty()
    ensures
        (MimeView { sectors: Seq::empty() }).spec_encode().len() == PREAMBLE_SIZE,
        MimeView::spec_decode((MimeView { sectors: Seq::empty() }).spec_encode()) == Ok::<
            MimeView,
            Error,
        >(MimeView { sectors: Seq::empty() }),
{
    let m = MimeView { sectors: Seq::empty() };
    lemma_map_preamble(m, m.spec_encode().len() as int);
    lemma_map_round_trip(m);
}

} // verus!
