//! The file allocation table: the successor of each cluster in its chain.

use vstd::prelude::*;
use vstd::set_lib::{lemma_int_range, lemma_len_subset, set_int_range};
use crate::BlockDevice;
use crate::boot_sector::BootSector;
use crate::bytes::{le32, read_le32};
use crate::error::Fat32Error;

verus! {

/// The bits of a FAT entry that carry its value; the top four are reserved.
pub const ENTRY_MASK: u32 = 0x0FFF_FFFF;

/// The smallest entry value that marks the end of a chain.
pub const END_OF_CHAIN_MIN: u32 = 0x0FFF_FFF8;

/// The longest chain a table can hold without naming a cluster twice: the
/// starting cluster, then every value an entry can name as a successor.
pub const MAX_CHAIN_LENGTH: usize = 0x0FFF_FFF7;

/// Whether `cluster` is a value that an entry can name as a successor.
pub open spec fn is_successor(cluster: u32) -> bool {
    2 <= cluster < END_OF_CHAIN_MIN
}

/// What an entry of the given value says about the chain: values from
/// `END_OF_CHAIN_MIN` to `ENTRY_MASK` end it, 0 and 1 are reserved, and any
/// other value is the next cluster.
pub open spec fn classify(value: u32) -> Result<u32, Fat32Error> {
    if END_OF_CHAIN_MIN <= value <= ENTRY_MASK {
        Err(Fat32Error::EndOfChain)
    } else if value <= 1 {
        Err(Fat32Error::InvalidCluster)
    } else {
        Ok(value)
    }
}

/// The value of the entry stored at `offset` in a FAT sector: the low 28
/// bits of the little-endian integer found there.
pub open spec fn entry_value(sector: Seq<u8>, offset: int) -> u32 {
    le32(sector, offset) & ENTRY_MASK
}

/// The sector that holds the entry of `cluster`.
pub open spec fn entry_sector(boot_sector: BootSector, cluster: u32) -> int {
    boot_sector.reserved_sector_count as int + (cluster as int * 4) / (
    boot_sector.bytes_per_sector as int)
}

/// The offset of the entry of `cluster` within its sector.
pub open spec fn entry_offset(boot_sector: BootSector, cluster: u32) -> int {
    (cluster as int * 4) % (boot_sector.bytes_per_sector as int)
}

/// What a walk along a chain does after a lookup.
#[derive(Debug, Clone, Copy, PartialEq, Eq, Structural)]
pub enum ChainStep {
    /// The walk goes on with this cluster.
    Next(u32),
    /// The chain is complete.
    Done,
    /// The walk fails with this error.
    Failed(Fat32Error),
}

/// What a walk does after the lookup of its latest cluster gave `lookup`,
/// where `length` clusters have been collected, that one included: the end
/// of the chain completes the walk, any other failure fails it, and a
/// successor is the cluster to go on with, unless the chain has reached
/// [`MAX_CHAIN_LENGTH`] and so cannot take it.
pub open spec fn next_step(lookup: Result<u32, Fat32Error>, length: nat) -> ChainStep {
    match lookup {
        Ok(next) => if length >= MAX_CHAIN_LENGTH {
            ChainStep::Failed(Fat32Error::InvalidCluster)
        } else {
            ChainStep::Next(next)
        },
        Err(Fat32Error::EndOfChain) => ChainStep::Done,
        Err(e) => ChainStep::Failed(e),
    }
}

/// What the lookup of `cluster` gives while a table keeps the sector
/// `kept`, as far as that sector decides it: clusters 0 and 1 have no
/// entry, and an entry in the kept sector is read there. An entry in
/// another sector is left to the device.
pub open spec fn kept_lookup(boot_sector: BootSector, kept: (u32, Seq<u8>), cluster: u32) -> Option<
    Result<u32, Fat32Error>,
> {
    if cluster < 2 {
        Some(Err(Fat32Error::InvalidCluster))
    } else if entry_sector(boot_sector, cluster) == kept.0 {
        Some(classify(entry_value(kept.1, entry_offset(boot_sector, cluster))))
    } else {
        None
    }
}

/// `chain` put before the outcome of the rest of a walk.
pub open spec fn continued(chain: Seq<u32>, rest: Result<Seq<u32>, Fat32Error>) -> Result<
    Seq<u32>,
    Fat32Error,
> {
    match rest {
        Ok(clusters) => Ok(chain + clusters),
        Err(e) => Err(e),
    }
}

/// The outcome of the walk that goes on at `cluster` after `length`
/// clusters, while a table keeps the sector `kept`, as far as that sector
/// decides it: the clusters from `cluster` to the end of the chain, or the
/// failure of the walk. The walk is left to the device as soon as it comes
/// to an entry in another sector.
pub open spec fn kept_walk(
    boot_sector: BootSector,
    kept: (u32, Seq<u8>),
    cluster: u32,
    length: nat,
) -> Option<Result<Seq<u32>, Fat32Error>>
    decreases MAX_CHAIN_LENGTH - length,
{
    match kept_lookup(boot_sector, kept, cluster) {
        None => None,
        Some(lookup) => match next_step(lookup, length + 1) {
            ChainStep::Done => Some(Ok(seq![cluster])),
            ChainStep::Failed(e) => Some(Err(e)),
            ChainStep::Next(next) => match kept_walk(boot_sector, kept, next, length + 1) {
                Some(rest) => Some(continued(seq![cluster], rest)),
                None => None,
            },
        },
    }
}

/// Whether the entries of all members of `chain` from position `from` on
/// stand in the sector numbered `sector`.
pub open spec fn stands_in(boot_sector: BootSector, chain: Seq<u32>, from: int, sector: u32) -> bool {
    forall|j: int| from <= j < chain.len() ==> entry_sector(boot_sector, #[trigger] chain[j]) == sector
}

/// Whether the member at position `at` of `chain` agrees with the sector
/// `kept`: where the entries of all members from there on stand in that
/// sector, the lookup of the member gives there the member after it, and
/// `end` for the last member.
pub open spec fn agrees(
    boot_sector: BootSector,
    kept: (u32, Seq<u8>),
    chain: Seq<u32>,
    end: Result<u32, Fat32Error>,
    at: int,
) -> bool {
    stands_in(boot_sector, chain, at, kept.0) ==> kept_lookup(boot_sector, kept, chain[at]) == Some(
        if at + 1 < chain.len() {
            Ok(chain[at + 1])
        } else {
            end
        },
    )
}

/// The outcome of a walk with the clusters of the chain as a sequence.
pub open spec fn outcome(result: Result<Vec<u32>, Fat32Error>) -> Result<Seq<u32>, Fat32Error> {
    match result {
        Ok(chain) => Ok(chain@),
        Err(e) => Err(e),
    }
}

/// A chain longer than [`MAX_CHAIN_LENGTH`] names some cluster twice: there
/// are fewer values that an entry can name as a successor than the chain
/// has clusters after its first. A table that never changes leads such a
/// chain round in a circle, so that following it would not end.
pub proof fn lemma_long_chain_repeats(chain: Seq<u32>)
    requires
        chain.len() > MAX_CHAIN_LENGTH,
        forall|i: int| 1 <= i < chain.len() ==> is_successor(#[trigger] chain[i]),
    ensures
        exists|i: int, j: int| 1 <= i < j < chain.len() && chain[i] == chain[j],
{
    let tail = Seq::new((chain.len() - 1) as nat, |i: int| chain[i + 1] as int);
    if tail.no_duplicates() {
        let successors = set_int_range(2, END_OF_CHAIN_MIN as int);
        tail.unique_seq_to_set();
        lemma_int_range(2, END_OF_CHAIN_MIN as int);
        assert forall|value: int| tail.to_set().contains(value) implies successors.contains(
            value,
        ) by {
            let at = choose|at: int| 0 <= at < tail.len() && tail[at] == value;
            assert(is_successor(chain[at + 1]));
        }
        lemma_len_subset(tail.to_set(), successors);
        assert(false);
    }
    let (a, b) = choose|a: int, b: int|
        0 <= a < tail.len() && 0 <= b < tail.len() && a != b && tail[a] == tail[b];
    if a < b {
        assert(chain[a + 1] == chain[b + 1]);
    } else {
        assert(chain[b + 1] == chain[a + 1]);
    }
}

/// Interprets the value of a FAT entry.
pub fn classify_entry(value: u32) -> (result: Result<u32, Fat32Error>)
    ensures
        result == classify(value),
{
    if END_OF_CHAIN_MIN <= value && value <= ENTRY_MASK {
        Err(Fat32Error::EndOfChain)
    } else if value <= 1 {
        Err(Fat32Error::InvalidCluster)
    } else {
        Ok(value)
    }
}

/// Decides what a walk along a chain does after the lookup of its latest
/// cluster gave `lookup`, where `length` clusters have been collected.
pub fn chain_step(lookup: Result<u32, Fat32Error>, length: usize) -> (step: ChainStep)
    ensures
        step == next_step(lookup, length as nat),
{
    match lookup {
        Ok(next) => if length >= MAX_CHAIN_LENGTH {
            ChainStep::Failed(Fat32Error::InvalidCluster)
        } else {
            ChainStep::Next(next)
        },
        Err(Fat32Error::EndOfChain) => ChainStep::Done,
        Err(e) => ChainStep::Failed(e),
    }
}

/// Reads the value of the entry stored at `offset` in a FAT sector.
pub fn read_entry(sector: &[u8], offset: usize) -> (value: u32)
    requires
        offset + 4 <= sector@.len(),
    ensures
        value == entry_value(sector@, offset as int),
        value <= ENTRY_MASK,
{
    let raw: u32 = read_le32(sector, offset);
    assert(raw & 0x0FFF_FFFF <= 0x0FFF_FFFF) by (bit_vector);
    raw & ENTRY_MASK
}

/// An entry never straddles two sectors: entries are 4 bytes long and
/// start at multiples of 4, and the size of a sector is a multiple of 4.
pub proof fn lemma_entry_fits(position: u64)
    by (bit_vector)
    requires
        position % 4 == 0,
    ensures
        position % 512 <= 508,
        position % 1024 <= 1020,
        position % 2048 <= 2044,
        position % 4096 <= 4092,
{
}

/// Finds the sector that holds the entry of `cluster`, and the entry's
/// offset in it.
pub fn locate_entry(boot_sector: &BootSector, cluster: u32) -> (place: (u32, usize))
    requires
        boot_sector.is_valid(),
    ensures
        place.0 == entry_sector(*boot_sector, cluster),
        place.1 == entry_offset(*boot_sector, cluster),
        place.1 + 4 <= boot_sector.bytes_per_sector,
{
    let position: u64 = cluster as u64 * 4;
    let sector_size: u64 = boot_sector.bytes_per_sector as u64;
    proof {
        lemma_entry_fits(position);
    }
    let sector: u64 = boot_sector.first_fat_sector() as u64 + position / sector_size;
    let offset: u64 = position % sector_size;
    (sector as u32, offset as usize)
}

/// A reader of the file allocation table of one volume.
///
/// It keeps the FAT sector it read last, so that consecutive lookups in the
/// same sector read the device once.
pub struct FatTable<'a, D: BlockDevice> {
    device: &'a mut D,
    boot_sector: &'a BootSector,
    cache: Option<(u32, Vec<u8>)>,
}

impl<'a, D: BlockDevice> FatTable<'a, D> {
    /// The boot record the table was opened with.
    pub closed spec fn boot_sector(&self) -> BootSector {
        *self.boot_sector
    }

    /// The sector kept from the last read, with its number.
    pub closed spec fn cached(&self) -> Option<(u32, Seq<u8>)> {
        match self.cache {
            Some((sector, data)) => Some((sector, data@)),
            None => None,
        }
    }

    /// The boot record is valid, and a kept sector has the volume's sector
    /// size.
    pub closed spec fn well_formed(&self) -> bool {
        &&& self.boot_sector.is_valid()
        &&& self.cache matches Some((_, data)) ==> data@.len() == self.boot_sector.bytes_per_sector
    }

    /// Opens the table of the volume that `boot_sector` describes.
    pub fn new(device: &'a mut D, boot_sector: &'a BootSector) -> (table: Self)
        requires
            boot_sector.is_valid(),
        ensures
            table.well_formed(),
            table.boot_sector() == *boot_sector,
            table.cached() is None,
    {
        FatTable { device, boot_sector, cache: None }
    }

    /// Whether the kept sector is the one numbered `sector`.
    pub open spec fn holds(&self, sector: int) -> bool {
        self.cached() matches Some((kept, _)) && kept == sector
    }

    /// Reads the FAT sector numbered `sector`, from the kept copy if that is
    /// the one, from the device otherwise; a sector read from the device
    /// replaces the kept one.
    pub fn read_fat_sector(&mut self, sector: u32) -> (result: Result<&Vec<u8>, Fat32Error>)
        requires
            old(self).well_formed(),
        ensures
            final(self).well_formed(),
            final(self).boot_sector() == old(self).boot_sector(),
            old(self).holds(sector as int) ==> result is Ok && final(self).cached() == old(
                self,
            ).cached(),
            result is Err ==> final(self).cached() == old(self).cached(),
            result matches Ok(data) ==> final(self).cached() == Some((sector, data@))
                && data@.len() == old(self).boot_sector().bytes_per_sector,
    {
        let hit: bool = match &self.cache {
            Some((kept, _)) => *kept == sector,
            None => false,
        };
        if !hit {
            let sector_size: usize = self.boot_sector.bytes_per_sector as usize;
            let mut buffer: Vec<u8> = vec![0u8; sector_size];
            match self.device.read_sector(sector, buffer.as_mut_slice()) {
                Ok(()) => {},
                Err(e) => {
                    return Err(e);
                },
            }
            self.cache = Some((sector, buffer));
        }
        match &self.cache {
            Some((_, data)) => Ok(data),
            None => vstd::pervasive::unreached(),
        }
    }

    /// Looks up the cluster that follows `cluster` in its chain.
    ///
    /// Clusters 0 and 1 have no entry. For any other cluster the entry is
    /// read from its FAT sector and interpreted by [`classify`]; where that
    /// sector is not the kept one it is read from the device first, and a
    /// failure of the device is returned as it is.
    pub fn next_cluster(&mut self, cluster: u32) -> (result: Result<u32, Fat32Error>)
        requires
            old(self).well_formed(),
        ensures
            final(self).well_formed(),
            final(self).boot_sector() == old(self).boot_sector(),
            cluster < 2 ==> result == Err::<u32, Fat32Error>(Fat32Error::InvalidCluster)
                && final(self).cached() == old(self).cached(),
            cluster >= 2 ==> ({
                let sector = entry_sector(old(self).boot_sector(), cluster);
                let offset = entry_offset(old(self).boot_sector(), cluster);
                ||| {
                    &&& final(self).cached() matches Some((kept, data))
                    &&& kept == sector
                    &&& result == classify(entry_value(data, offset))
                    &&& old(self).holds(sector) ==> final(self).cached() == old(self).cached()
                }
                ||| {
                    &&& !old(self).holds(sector)
                    &&& result is Err
                    &&& final(self).cached() == old(self).cached()
                }
            }),
            result matches Ok(next) ==> is_successor(next),
    {
        if cluster < 2 {
            return Err(Fat32Error::InvalidCluster);
        }
        let (sector, offset) = locate_entry(self.boot_sector, cluster);
        let data = match self.read_fat_sector(sector) {
            Ok(data) => data,
            Err(e) => {
                return Err(e);
            },
        };
        let value: u32 = read_entry(data.as_slice(), offset);
        classify_entry(value)
    }

    /// Collects the chain that starts at `start`: the cluster itself, then
    /// each successor that [`FatTable::next_cluster`] reports, until it
    /// reports the end of the chain.
    ///
    /// After each lookup the walk does what [`next_step`] says: any other
    /// failure of a lookup is returned as it is, and a chain that outgrows
    /// [`MAX_CHAIN_LENGTH`], which names some cluster twice and would never
    /// end, is rejected as an invalid cluster. So the walk never fails with
    /// the end of a chain.
    ///
    /// As long as the entries met stand in the sector that the table keeps,
    /// the device is not read and the outcome is [`kept_walk`]. Whatever
    /// the device returns, a chain collected agrees with the sector kept in
    /// the end: as far back as the entries of its members stand in that
    /// sector, each member is followed by the cluster that its entry names
    /// there, and the entry of the last member ends the chain.
    pub fn cluster_chain(&mut self, start: u32) -> (result: Result<Vec<u32>, Fat32Error>)
        requires
            old(self).well_formed(),
        ensures
            final(self).well_formed(),
            final(self).boot_sector() == old(self).boot_sector(),
            start < 2 ==> result == Err::<Vec<u32>, Fat32Error>(Fat32Error::InvalidCluster),
            result != Err::<Vec<u32>, Fat32Error>(Fat32Error::EndOfChain),
            old(self).cached() matches Some(kept) ==> (kept_walk(
                old(self).boot_sector(),
                kept,
                start,
                0,
            ) matches Some(decided) ==> outcome(result) == decided && final(self).cached() == old(
                self,
            ).cached()),
            result matches Ok(chain) ==> {
                &&& 1 <= chain@.len() <= MAX_CHAIN_LENGTH
                &&& chain@[0] == start
                &&& start >= 2
                &&& forall|i: int| 1 <= i < chain@.len() ==> is_successor(#[trigger] chain@[i])
                &&& final(self).cached() matches Some(kept) ==> forall|at: int|
                    0 <= at < chain@.len() ==> #[trigger] agrees(
                        old(self).boot_sector(),
                        kept,
                        chain@,
                        Err(Fat32Error::EndOfChain),
                        at,
                    )
            },
    {
        let mut chain: Vec<u32> = Vec::new();
        let mut current: u32 = start;
        let ghost table = self.boot_sector();
        let ghost decided = match self.cached() {
            Some(kept) => kept_walk(table, kept, start, 0),
            None => None,
        };
        assert(decided matches Some(rest) ==> continued(chain@, rest) == rest) by {
            if let Some(rest) = decided {
                if let Ok(clusters) = rest {
                    assert(chain@ + clusters =~= clusters);
                }
            }
        }
        loop
            invariant
                self.well_formed(),
                self.boot_sector() == old(self).boot_sector(),
                table == old(self).boot_sector(),
                decided == match old(self).cached() {
                    Some(kept) => kept_walk(table, kept, start, 0),
                    None => None,
                },
                chain@.len() < MAX_CHAIN_LENGTH,
                chain@.len() == 0 ==> current == start,
                chain@.len() > 0 ==> chain@[0] == start && start >= 2 && is_successor(current),
                forall|i: int| 1 <= i < chain@.len() ==> is_successor(#[trigger] chain@[i]),
                chain@.len() > 0 ==> self.holds(entry_sector(table, chain@.last())),
                self.cached() matches Some(kept) ==> forall|at: int|
                    0 <= at < chain@.len() ==> #[trigger] agrees(
                        table,
                        kept,
                        chain@,
                        Ok(current),
                        at,
                    ),
                decided matches Some(whole) ==> {
                    &&& self.cached() == old(self).cached()
                    &&& old(self).cached() matches Some(kept) && (kept_walk(
                        table,
                        kept,
                        current,
                        chain@.len(),
                    ) matches Some(rest) && continued(chain@, rest) == whole)
                },
            decreases MAX_CHAIN_LENGTH - chain@.len(),
        {
            let ghost before = chain@;
            let ghost kept_before = self.cached();
            chain.push(current);
            let lookup = self.next_cluster(current);
            proof {
                if lookup is Ok || lookup == Err::<u32, Fat32Error>(Fat32Error::EndOfChain) {
                    if let Some(kept) = self.cached() {
                        let last = chain@.len() - 1;
                        assert(chain@[last] == current);
                        assert forall|at: int| 0 <= at < chain@.len() implies #[trigger] agrees(
                            table,
                            kept,
                            chain@,
                            lookup,
                            at,
                        ) by {
                            if stands_in(table, chain@, at, kept.0) {
                                assert(entry_sector(table, chain@[last]) == kept.0);
                                if at < last {
                                    assert(chain@[last - 1] == before.last());
                                    assert(entry_sector(table, chain@[last - 1]) == kept.0);
                                    assert(kept_before == Some(kept));
                                    assert forall|j: int| at <= j < before.len() implies entry_sector(
                                        table,
                                        #[trigger] before[j],
                                    ) == kept.0 by {
                                        assert(before[j] == chain@[j]);
                                    }
                                    assert(agrees(table, kept, before, Ok(current), at));
                                    assert(before[at] == chain@[at]);
                                    if at + 1 < before.len() {
                                        assert(before[at + 1] == chain@[at + 1]);
                                    }
                                }
                            }
                        }
                    }
                }
                if let Some(whole) = decided {
                    let kept = old(self).cached()->0;
                    assert(kept_lookup(table, kept, current) == Some(lookup));
                    match next_step(lookup, chain@.len()) {
                        ChainStep::Done => {
                            assert(before + seq![current] =~= chain@);
                        },
                        ChainStep::Failed(e) => {},
                        ChainStep::Next(next) => {
                            let rest = kept_walk(table, kept, next, chain@.len())->0;
                            if let Ok(clusters) = rest {
                                assert(before + (seq![current] + clusters) =~= chain@ + clusters);
                            }
                        },
                    }
                }
            }
            match chain_step(lookup, chain.len()) {
                ChainStep::Next(next) => {
                    current = next;
                },
                ChainStep::Done => {
                    return Ok(chain);
                },
                ChainStep::Failed(e) => {
                    return Err(e);
                },
            }
        }
    }
}

} // verus!
