//! The navigator of a mounted volume: path resolution, directory listing
//! and file reading.
//!
//! What a device returns is not known in advance, and nothing here assumes
//! that it returns the same bytes twice. A function that reads the device
//! therefore states what holds of its result whatever was read, the inputs
//! on which its result is owed without a read, and the state it leaves.
//! Every decision on the data read is made by a function that takes the
//! data as an argument and states its result exactly: [`scan_records`] for
//! the records of a cluster, [`select_directory`], [`select_parent`] and
//! [`select_file`] for the lookups in a listing, [`file_start`] and
//! [`file_data`] for the contents of a file, and the functions of
//! [`crate::fat_table`] for the chain of clusters.

use vstd::prelude::*;
use vstd::slice::slice_subrange;
use vstd::string::StringSliceAdditionalSpecFns;
use crate::BlockDevice;
use crate::boot_sector::BootSector;
use crate::directory::{DirectoryEntry, DirectoryRecord};
use crate::error::Fat32Error;
use crate::fat_table::{FatTable, MAX_CHAIN_LENGTH};
use crate::listing::{
    all_listed, all_of_size, answer, directory_listing, file, file_start, has_end,
    lemma_directory_listing_push, lemma_listing_is_listed, listing, parent, records, scan_records,
    select_directory, select_file, select_parent, subdirectory,
};
use crate::path::{
    components, directory_part, find_last_separator, is_absolute, last_separator, leaf_part,
    next_component, DOT, SEPARATOR,
};

verus! {

/// The first sector of a data cluster: clusters are numbered from 2, and
/// the data region holds them one after the other.
pub open spec fn cluster_sector(boot_sector: BootSector, cluster: u32) -> int {
    (cluster as int - 2) * boot_sector.sectors_per_cluster as int
        + boot_sector.spec_first_data_sector()
}

/// Whether a path component names the directory it is met in.
pub open spec fn is_self_name(component: Seq<u8>) -> bool {
    component =~= seq![DOT]
}

/// Whether a path component names the parent of the directory it is met in.
pub open spec fn is_parent_name(component: Seq<u8>) -> bool {
    component =~= seq![DOT, DOT]
}

/// Whether a path leads nowhere: each of its components names the
/// directory it is met in.
pub open spec fn stays_in_place(path: Seq<u8>) -> bool {
    forall|i: int| 0 <= i < components(path).len() ==> is_self_name(#[trigger] components(path)[i])
}

/// Where one component of a path leads from the directory `current`, whose
/// listing is `listed`: `.` stays in place, `..` leads to the parent, and
/// any other name to the subdirectory it selects. The component leads
/// nowhere if the listing has no such record.
pub open spec fn step(
    current: u32,
    component: Seq<u8>,
    listed: Seq<DirectoryRecord>,
    root: u32,
) -> Option<u32> {
    if is_self_name(component) {
        Some(current)
    } else if is_parent_name(component) {
        parent(listed, root)
    } else {
        subdirectory(listed, component)
    }
}

/// Whether the components `names`, taken from left to right, can lead from
/// the directory `start` to the directory `target`: each component leads on
/// as [`step`] says from some listing. Which listings the directories on
/// the way have is for the device to say.
pub open spec fn reachable(start: u32, names: Seq<Seq<u8>>, root: u32, target: u32) -> bool
    decreases names.len(),
{
    if names.len() == 0 {
        target == start
    } else {
        exists|middle: u32, listed: Seq<DirectoryRecord>|
            {
                &&& reachable(start, names.drop_last(), root, middle)
                &&& all_listed(listed)
                &&& #[trigger] step(middle, names.last(), listed, root) == Some(target)
            }
    }
}

/// The bytes of the given clusters, one cluster after the other.
pub open spec fn joined(clusters: Seq<Seq<u8>>) -> Seq<u8>
    decreases clusters.len(),
{
    if clusters.len() == 0 {
        Seq::empty()
    } else {
        joined(clusters.drop_last()) + clusters.last()
    }
}

/// The contents of a file of `size` bytes stored in the given clusters, in
/// chain order: their bytes up to the size of the file. What the last
/// cluster holds beyond that is padding.
pub open spec fn file_contents(clusters: Seq<Seq<u8>>, size: u32) -> Seq<u8> {
    let stored = joined(clusters);
    if size <= stored.len() {
        stored.take(size as int)
    } else {
        stored
    }
}

/// The contents of the file that the leaf name `name` selects in a
/// directory whose listing is `listed`, where the clusters of the file's
/// chain are `clusters`. There is no such file if no record matches.
pub open spec fn file_in(
    listed: Seq<DirectoryRecord>,
    name: Seq<u8>,
    clusters: Seq<Seq<u8>>,
) -> Option<Seq<u8>> {
    match file(listed, name) {
        Some((_, size)) => Some(file_contents(clusters, size)),
        None => None,
    }
}

/// The bytes that each of the given clusters holds.
pub open spec fn contents(clusters: Seq<Vec<u8>>) -> Seq<Seq<u8>> {
    clusters.map_values(|cluster: Vec<u8>| cluster@)
}

/// Puts together the contents of a file of `size` bytes from the clusters
/// of its chain, given in chain order.
pub fn file_data(clusters: &Vec<Vec<u8>>, size: u32) -> (data: Vec<u8>)
    ensures
        data@ == file_contents(contents(clusters@), size),
{
    let ghost held = contents(clusters@);
    let mut data: Vec<u8> = Vec::new();
    let mut index: usize = 0;
    assert(data@ =~= joined(held.take(0)));
    while index < clusters.len()
        invariant
            index <= clusters@.len(),
            held == contents(clusters@),
            data@ == joined(held.take(index as int)),
        decreases clusters@.len() - index,
    {
        let ghost before = data@;
        data.extend_from_slice(clusters[index].as_slice());
        proof {
            let longer = held.take(index + 1);
            assert(longer.drop_last() =~= held.take(index as int));
            assert(longer.last() == clusters@[index as int]@);
            assert(data@ =~= before + clusters@[index as int]@);
        }
        index = index + 1;
    }
    assert(held.take(index as int) =~= held);
    data.truncate(size as usize);
    assert(data@ =~= file_contents(held, size));
    data
}

/// A path whose components all name the directory they are met in leads
/// from a directory to itself and nowhere else.
pub proof fn lemma_reachable_in_place(start: u32, names: Seq<Seq<u8>>, root: u32, target: u32)
    requires
        forall|i: int| 0 <= i < names.len() ==> is_self_name(#[trigger] names[i]),
    ensures
        reachable(start, names, root, target) <==> target == start,
    decreases names.len(),
{
    if names.len() > 0 {
        let before = names.drop_last();
        assert forall|i: int| 0 <= i < before.len() implies is_self_name(#[trigger] before[i]) by {
            assert(before[i] == names[i]);
        }
        assert(is_self_name(names.last()));
        if reachable(start, names, root, target) {
            let (middle, listed) = choose|middle: u32, listed: Seq<DirectoryRecord>|
                {
                    &&& reachable(start, before, root, middle)
                    &&& all_listed(listed)
                    &&& #[trigger] step(middle, names.last(), listed, root) == Some(target)
                };
            lemma_reachable_in_place(start, before, root, middle);
        }
        if target == start {
            lemma_reachable_in_place(start, before, root, start);
            let listed = Seq::<DirectoryRecord>::empty();
            assert(all_listed(listed));
            assert(step(start, names.last(), listed, root) == Some(target));
        }
    }
}

/// A mounted FAT32 volume with a current directory.
pub struct Fat32FileSystem<D: BlockDevice> {
    device: D,
    boot_sector: BootSector,
    current_directory: u32,
}

impl<D: BlockDevice> Fat32FileSystem<D> {
    /// The volume's boot record.
    pub closed spec fn boot_sector(&self) -> BootSector {
        self.boot_sector
    }

    /// The cluster of the current directory.
    pub closed spec fn spec_current_dir(&self) -> u32 {
        self.current_directory
    }

    /// The boot record of a mounted volume is valid.
    pub open spec fn well_formed(&self) -> bool {
        self.boot_sector().is_valid()
    }

    /// The size in bytes of the volume's clusters.
    pub open spec fn cluster_size(&self) -> int {
        self.boot_sector().spec_cluster_size()
    }

    /// The cluster at which the resolution of `path` starts: the root
    /// directory for an absolute path, the current directory otherwise.
    pub open spec fn starting_cluster(&self, path: Seq<u8>) -> u32 {
        if is_absolute(path) {
            self.boot_sector().root_cluster
        } else {
            self.spec_current_dir()
        }
    }

    /// Whether `path` leads to the directory `target`: its components lead
    /// there from its starting cluster.
    pub open spec fn leads_to(&self, path: Seq<u8>, target: u32) -> bool {
        reachable(
            self.starting_cluster(path),
            components(path),
            self.boot_sector().root_cluster,
            target,
        )
    }

    /// Whether `target` can be the directory in which the file named by
    /// `path` is looked up: the one that the directory part of the path
    /// leads to, and the current directory where that part is empty.
    pub open spec fn holds_leaf_of(&self, path: Seq<u8>, target: u32) -> bool {
        if directory_part(path).len() == 0 {
            target == self.spec_current_dir()
        } else {
            self.leads_to(directory_part(path), target)
        }
    }

    /// The cluster at which the lookup of the file named by `path` starts:
    /// the starting cluster of the directory part of the path, and the
    /// current directory where that part is empty. So the file `/NAME` is
    /// looked up in the root directory, and the file `NAME` in the current
    /// directory.
    pub open spec fn leaf_start(&self, path: Seq<u8>) -> u32 {
        if directory_part(path).len() == 0 {
            self.spec_current_dir()
        } else {
            self.starting_cluster(directory_part(path))
        }
    }

    /// Mounts the volume on `device` whose sector 0 holds `record`.
    ///
    /// The volume is mounted if the boot record decoded from `record` is
    /// valid; its current directory is then the root directory.
    pub fn from_boot_record(device: D, record: &[u8]) -> (result: Result<Self, Fat32Error>)
        ensures
            match result {
                Ok(volume) => {
                    &&& record@.len() >= BootSector::SIZE
                    &&& BootSector::decode(record@).is_valid()
                    &&& volume.boot_sector() == BootSector::decode(record@)
                    &&& volume.spec_current_dir() == BootSector::decode(record@).root_cluster
                },
                Err(e) => if record@.len() < BootSector::SIZE {
                    e == Fat32Error::BufferTooSmall
                } else {
                    e == Fat32Error::InvalidBootSector && !BootSector::decode(record@).is_valid()
                },
            },
    {
        if record.len() < BootSector::SIZE {
            return Err(Fat32Error::BufferTooSmall);
        }
        let boot_sector = BootSector::from_bytes(record);
        match boot_sector.validate() {
            Ok(()) => {},
            Err(e) => {
                return Err(e);
            },
        }
        let current_directory: u32 = boot_sector.root_cluster;
        Ok(Fat32FileSystem { device, boot_sector, current_directory })
    }

    /// Mounts the volume on `device`: reads the 512 bytes at the start of
    /// sector 0 and mounts the volume that they describe, as
    /// [`Self::from_boot_record`] does.
    ///
    /// A failure of the device is returned as it is.
    pub fn new(device: D) -> (result: Result<Self, Fat32Error>)
        ensures
            result matches Ok(volume) ==> {
                &&& volume.well_formed()
                &&& volume.spec_current_dir() == volume.boot_sector().root_cluster
            },
    {
        let mut device = device;
        let mut buffer: Vec<u8> = vec![0u8; 512];
        match device.read_sector(0, buffer.as_mut_slice()) {
            Ok(()) => {},
            Err(e) => {
                return Err(e);
            },
        }
        Self::from_boot_record(device, buffer.as_slice())
    }

    /// The cluster of the current directory.
    pub fn current_dir(&self) -> (cluster: u32)
        ensures
            cluster == self.spec_current_dir(),
    {
        self.current_directory
    }

    /// The first sector of the data cluster `cluster`, where the cluster
    /// number is at least 2 and the sector number fits in 32 bits.
    pub fn cluster_to_sector(&self, cluster: u32) -> (sector: Option<u32>)
        ensures
            sector == if cluster >= 2 && cluster_sector(self.boot_sector(), cluster) <= u32::MAX {
                Some(cluster_sector(self.boot_sector(), cluster) as u32)
            } else {
                None
            },
    {
        if cluster < 2 {
            return None;
        }
        let per_cluster: u64 = self.boot_sector.sectors_per_cluster as u64;
        assert(self.boot_sector.num_fats as int * self.boot_sector.spec_fat_size() as int <= 0xFF
            * 0xFFFF_FFFF) by (nonlinear_arith)
            requires
                self.boot_sector.num_fats <= 0xFF,
                self.boot_sector.spec_fat_size() <= 0xFFFF_FFFF,
        ;
        let fats: u64 = self.boot_sector.num_fats as u64 * self.boot_sector.fat_size() as u64;
        let first_data: u64 = self.boot_sector.reserved_sector_count as u64 + fats;
        let index: u64 = (cluster - 2) as u64;
        assert(index * per_cluster <= 0xFFFF_FFFF * 0xFF) by (nonlinear_arith)
            requires
                index <= 0xFFFF_FFFF,
                per_cluster <= 0xFF,
        ;
        let sector: u64 = index * per_cluster + first_data;
        if sector > u32::MAX as u64 {
            None
        } else {
            Some(sector as u32)
        }
    }

    /// Reads the data cluster `cluster`, sector by sector.
    ///
    /// A cluster number below 2, or a cluster with a sector whose number
    /// does not fit in 32 bits, is rejected as invalid. A failure of the
    /// device is returned as it is.
    pub fn read_cluster(&mut self, cluster: u32) -> (result: Result<Vec<u8>, Fat32Error>)
        requires
            old(self).well_formed(),
        ensures
            final(self).boot_sector() == old(self).boot_sector(),
            final(self).spec_current_dir() == old(self).spec_current_dir(),
            cluster < 2 ==> result == Err::<Vec<u8>, Fat32Error>(Fat32Error::InvalidCluster),
            cluster_sector(old(self).boot_sector(), cluster) + old(
                self,
            ).boot_sector().sectors_per_cluster > u32::MAX + 1 ==> result == Err::<
                Vec<u8>,
                Fat32Error,
            >(Fat32Error::InvalidCluster),
            result matches Ok(data) ==> data@.len() == old(self).cluster_size(),
    {
        let first: u32 = match self.cluster_to_sector(cluster) {
            Some(sector) => sector,
            None => {
                return Err(Fat32Error::InvalidCluster);
            },
        };
        let sector_size: usize = self.boot_sector.bytes_per_sector as usize;
        let per_cluster: u32 = self.boot_sector.sectors_per_cluster as u32;
        if per_cluster > 0 && first > u32::MAX - (per_cluster - 1) {
            return Err(Fat32Error::InvalidCluster);
        }
        let mut data: Vec<u8> = Vec::new();
        let mut index: u32 = 0;
        while index < per_cluster
            invariant
                cluster >= 2,
                index <= per_cluster,
                first == cluster_sector(old(self).boot_sector(), cluster),
                first + per_cluster <= u32::MAX + 1,
                per_cluster == self.boot_sector().sectors_per_cluster,
                sector_size == self.boot_sector().bytes_per_sector,
                self.boot_sector() == old(self).boot_sector(),
                self.spec_current_dir() == old(self).spec_current_dir(),
                data@.len() == index * sector_size,
            decreases per_cluster - index,
        {
            let mut buffer: Vec<u8> = vec![0u8; sector_size];
            match self.device.read_sector(first + index, buffer.as_mut_slice()) {
                Ok(()) => {},
                Err(e) => {
                    return Err(e);
                },
            }
            data.extend_from_slice(buffer.as_slice());
            assert((index + 1) * sector_size == index * sector_size + sector_size)
                by (nonlinear_arith);
            index = index + 1;
        }
        assert(index * sector_size == sector_size * index) by (nonlinear_arith);
        Ok(data)
    }

    /// Lists the directory that starts at `cluster`.
    ///
    /// The clusters of its chain are read in order, and [`scan_records`]
    /// adds the records of each to the listing, until it reports the end
    /// marker or the chain is exhausted. A failure to follow the chain or to
    /// read a cluster is returned as it is.
    ///
    /// The result is the [`directory_listing`] of the clusters read. The
    /// contract can state this of some clusters only, not of those that the
    /// device has returned: it says which form a listing has.
    pub fn read_directory(&mut self, cluster: u32) -> (result: Result<
        Vec<DirectoryEntry>,
        Fat32Error,
    >)
        requires
            old(self).well_formed(),
        ensures
            final(self).boot_sector() == old(self).boot_sector(),
            final(self).spec_current_dir() == old(self).spec_current_dir(),
            cluster < 2 ==> result == Err::<Vec<DirectoryEntry>, Fat32Error>(
                Fat32Error::InvalidCluster,
            ),
            result matches Ok(entries) ==> {
                &&& all_listed(records(entries@))
                &&& exists|clusters: Seq<Seq<u8>>|
                    {
                        &&& records(entries@) == #[trigger] directory_listing(clusters)
                        &&& all_of_size(clusters, old(self).cluster_size())
                        &&& 1 <= clusters.len() <= MAX_CHAIN_LENGTH
                    }
            },
    {
        let mut table = FatTable::new(&mut self.device, &self.boot_sector);
        let chain: Vec<u32> = match table.cluster_chain(cluster) {
            Ok(chain) => chain,
            Err(e) => {
                return Err(e);
            },
        };
        let mut entries: Vec<DirectoryEntry> = Vec::new();
        let ghost mut read: Seq<Seq<u8>> = Seq::empty();
        let mut index: usize = 0;
        assert(records(entries@) =~= directory_listing(read));
        while index < chain.len()
            invariant
                cluster >= 2,
                index <= chain@.len(),
                1 <= chain@.len() <= MAX_CHAIN_LENGTH,
                read.len() == index,
                self.well_formed(),
                self.boot_sector() == old(self).boot_sector(),
                self.spec_current_dir() == old(self).spec_current_dir(),
                all_listed(records(entries@)),
                records(entries@) == directory_listing(read),
                forall|k: int| 0 <= k < read.len() ==> !has_end(#[trigger] read[k]),
                all_of_size(read, old(self).cluster_size()),
            decreases chain@.len() - index,
        {
            let data: Vec<u8> = match self.read_cluster(chain[index]) {
                Ok(data) => data,
                Err(e) => {
                    return Err(e);
                },
            };
            let ghost before = records(entries@);
            let ended: bool = scan_records(data.as_slice(), &mut entries);
            proof {
                lemma_directory_listing_push(read, data@);
                lemma_listing_is_listed(data@);
                assert forall|i: int| 0 <= i < records(entries@).len() implies (#[trigger] records(
                    entries@,
                )[i]).is_listed() by {
                    if i < before.len() {
                        assert(records(entries@)[i] == before[i]);
                    } else {
                        assert(records(entries@)[i] == listing(data@)[i - before.len()]);
                    }
                }
                read = read.push(data@);
            }
            if ended {
                return Ok(entries);
            }
            index = index + 1;
        }
        Ok(entries)
    }

    /// Finds the parent of the directory that starts at `cluster`: lists
    /// the directory and answers as [`select_parent`] does for the listing.
    ///
    /// A failure to list the directory is returned as it is.
    pub fn find_parent(&mut self, cluster: u32) -> (result: Result<u32, Fat32Error>)
        requires
            old(self).well_formed(),
        ensures
            final(self).boot_sector() == old(self).boot_sector(),
            final(self).spec_current_dir() == old(self).spec_current_dir(),
            cluster < 2 ==> result == Err::<u32, Fat32Error>(Fat32Error::InvalidCluster),
            result matches Ok(found) ==> exists|listed: Seq<DirectoryRecord>|
                {
                    &&& all_listed(listed)
                    &&& #[trigger] parent(listed, old(self).boot_sector().root_cluster) == Some(
                        found,
                    )
                },
    {
        let entries: Vec<DirectoryEntry> = match self.read_directory(cluster) {
            Ok(entries) => entries,
            Err(e) => {
                return Err(e);
            },
        };
        select_parent(&entries, self.boot_sector.root_cluster)
    }

    /// Resolves a path, given as bytes, to the cluster of the directory it
    /// names.
    ///
    /// Resolution starts at [`Self::starting_cluster`] and takes the
    /// components of the path from left to right. The component `.` stays
    /// in place. For the component `..` the directory reached so far is
    /// listed and [`select_parent`] answers; for any other component it is
    /// listed and [`select_directory`] answers. A path of components `.`
    /// alone, or of none, so resolves to the starting cluster without a
    /// read. A failure to list a directory is returned as it is.
    pub fn resolve_bytes(&mut self, path: &[u8]) -> (result: Result<u32, Fat32Error>)
        requires
            old(self).well_formed(),
        ensures
            final(self).boot_sector() == old(self).boot_sector(),
            final(self).spec_current_dir() == old(self).spec_current_dir(),
            stays_in_place(path@) ==> result == Ok::<u32, Fat32Error>(
                old(self).starting_cluster(path@),
            ),
            !stays_in_place(path@) && old(self).starting_cluster(path@) < 2 ==> result == Err::<
                u32,
                Fat32Error,
            >(Fat32Error::InvalidCluster),
            result matches Ok(target) ==> old(self).leads_to(path@, target),
    {
        let ghost start = self.starting_cluster(path@);
        let ghost root = self.boot_sector().root_cluster;
        let mut current: u32 = if path.len() > 0 && path[0] == SEPARATOR {
            self.boot_sector.root_cluster
        } else {
            self.current_directory
        };
        let mut position: usize = 0;
        let ghost mut seen: Seq<Seq<u8>> = Seq::empty();
        assert(path@.skip(0) =~= path@);
        assert(seen + components(path@) =~= components(path@));
        loop
            invariant
                position <= path@.len(),
                self.well_formed(),
                self.boot_sector() == old(self).boot_sector(),
                self.spec_current_dir() == old(self).spec_current_dir(),
                start == old(self).starting_cluster(path@),
                root == old(self).boot_sector().root_cluster,
                components(path@) == seen + components(path@.skip(position as int)),
                (forall|i: int| 0 <= i < seen.len() ==> is_self_name(#[trigger] seen[i])) || start
                    >= 2,
                (forall|i: int| 0 <= i < seen.len() ==> is_self_name(#[trigger] seen[i]))
                    ==> current == start,
                reachable(start, seen, root, current),
            decreases path@.len() - position,
        {
            let (from, to) = match next_component(path, position) {
                Some(found) => found,
                None => {
                    assert(seen + components(path@.skip(position as int)) =~= seen);
                    return Ok(current);
                },
            };
            let component = slice_subrange(path, from, to);
            let ghost extended = seen.push(component@);
            proof {
                assert(extended + components(path@.skip(to as int)) =~= seen + (seq![component@]
                    + components(path@.skip(to as int))));
                assert(components(path@)[seen.len() as int] == component@);
                assert(extended[seen.len() as int] == component@);
                if forall|i: int| 0 <= i < extended.len() ==> is_self_name(#[trigger] extended[i]) {
                    assert forall|i: int| 0 <= i < seen.len() implies is_self_name(
                        #[trigger] seen[i],
                    ) by {
                        assert(extended[i] == seen[i]);
                    }
                }
                assert(extended.drop_last() =~= seen);
                assert(extended.last() == component@);
            }
            let ghost previous = current;
            if component.len() == 1 && component[0] == DOT {
                proof {
                    let listed = Seq::<DirectoryRecord>::empty();
                    assert(all_listed(listed));
                    assert(step(previous, component@, listed, root) == Some(current));
                    if forall|i: int| 0 <= i < seen.len() ==> is_self_name(#[trigger] seen[i]) {
                        assert forall|i: int| 0 <= i < extended.len() implies is_self_name(
                            #[trigger] extended[i],
                        ) by {
                            if i < seen.len() {
                                assert(extended[i] == seen[i]);
                            }
                        }
                    }
                }
            } else {
                proof {
                    assert(!stays_in_place(path@)) by {
                        if stays_in_place(path@) {
                            assert(is_self_name(components(path@)[seen.len() as int]));
                            assert(component@.len() == 1);
                            assert(component@[0] == seq![DOT][0]);
                        }
                    }
                }
                let entries: Vec<DirectoryEntry> = match self.read_directory(current) {
                    Ok(entries) => entries,
                    Err(e) => {
                        return Err(e);
                    },
                };
                let found = if component.len() == 2 && component[0] == DOT && component[1] == DOT {
                    select_parent(&entries, self.boot_sector.root_cluster)
                } else {
                    select_directory(&entries, component)
                };
                proof {
                    let listed = records(entries@);
                    assert(!is_self_name(component@)) by {
                        if is_self_name(component@) {
                            assert(component@.len() == 1);
                            assert(component@[0] == seq![DOT][0]);
                        }
                    }
                    if component@.len() == 2 && component@[0] == DOT && component@[1] == DOT {
                        assert(is_parent_name(component@));
                    } else {
                        assert(!is_parent_name(component@)) by {
                            if is_parent_name(component@) {
                                assert(component@.len() == 2);
                                assert(component@[0] == seq![DOT, DOT][0]);
                                assert(component@[1] == seq![DOT, DOT][1]);
                            }
                        }
                    }
                    assert(found == answer(step(previous, component@, listed, root)));
                }
                current = match found {
                    Ok(cluster) => cluster,
                    Err(e) => {
                        return Err(e);
                    },
                };
            }
            proof {
                seen = extended;
            }
            position = to;
        }
    }

    /// Resolves a path to the cluster of the directory it names, as
    /// [`Self::resolve_bytes`] does for the bytes of the path.
    pub fn resolve_path(&mut self, path: &str) -> (result: Result<u32, Fat32Error>)
        requires
            old(self).well_formed(),
        ensures
            final(self).boot_sector() == old(self).boot_sector(),
            final(self).spec_current_dir() == old(self).spec_current_dir(),
            stays_in_place(path.spec_bytes()) ==> result == Ok::<u32, Fat32Error>(
                old(self).starting_cluster(path.spec_bytes()),
            ),
            !stays_in_place(path.spec_bytes()) && old(self).starting_cluster(path.spec_bytes()) < 2
                ==> result == Err::<u32, Fat32Error>(Fat32Error::InvalidCluster),
            result matches Ok(target) ==> old(self).leads_to(path.spec_bytes(), target),
    {
        self.resolve_bytes(path.as_bytes())
    }

    /// Splits the path of a file into the cluster of its directory and the
    /// name of the file.
    ///
    /// The name is the [`leaf_part`] of the path. The directory is the one
    /// that the [`directory_part`] resolves to, and the current directory
    /// where that part is empty: a file named with a leading separator alone
    /// is looked up in the root directory. A failure to resolve is returned
    /// as it is.
    pub fn parse_path<'p>(&mut self, path: &'p str) -> (result: Result<(u32, &'p [u8]), Fat32Error>)
        requires
            old(self).well_formed(),
        ensures
            final(self).boot_sector() == old(self).boot_sector(),
            final(self).spec_current_dir() == old(self).spec_current_dir(),
            last_separator(path.spec_bytes()) == Some(0int) ==> (result matches Ok((directory, _))
                && directory == old(self).boot_sector().root_cluster),
            last_separator(path.spec_bytes()) is None ==> (result matches Ok((directory, _))
                && directory == old(self).spec_current_dir()),
            stays_in_place(directory_part(path.spec_bytes())) ==> (result matches Ok(
                (directory, _),
            ) && directory == old(self).leaf_start(path.spec_bytes())),
            !stays_in_place(directory_part(path.spec_bytes())) && old(self).leaf_start(
                path.spec_bytes(),
            ) < 2 ==> result == Err::<(u32, &'p [u8]), Fat32Error>(Fat32Error::InvalidCluster),
            result matches Ok((directory, name)) ==> {
                &&& name@ == leaf_part(path.spec_bytes())
                &&& old(self).holds_leaf_of(path.spec_bytes(), directory)
            },
    {
        let bytes = path.as_bytes();
        let length: usize = bytes.len();
        let (directory, name) = match find_last_separator(bytes) {
            Some(at) => {
                let before: usize = if at == 0 {
                    1
                } else {
                    at
                };
                (slice_subrange(bytes, 0, before), slice_subrange(bytes, at + 1, length))
            },
            None => (slice_subrange(bytes, 0, 0), bytes),
        };
        assert(directory@ =~= directory_part(bytes@));
        assert(name@ =~= leaf_part(bytes@));
        proof {
            if directory@.len() == 0 {
                assert(components(directory@) =~= Seq::<Seq<u8>>::empty());
            }
            if last_separator(bytes@) == Some(0int) {
                assert(directory@.skip(1) =~= Seq::<u8>::empty());
                assert(components(directory@.skip(1)) =~= Seq::<Seq<u8>>::empty());
                assert(components(directory@) =~= Seq::<Seq<u8>>::empty());
            }
        }
        let cluster: u32 = if directory.len() == 0 {
            self.current_directory
        } else {
            match self.resolve_bytes(directory) {
                Ok(cluster) => cluster,
                Err(e) => {
                    return Err(e);
                },
            }
        };
        Ok((cluster, name))
    }

    /// Makes the directory that `path` names the current directory.
    ///
    /// The path is resolved and the directory found is listed once, to see
    /// that it can be read. A failure of either step is returned as it is,
    /// and leaves the current directory as it was.
    pub fn change_dir(&mut self, path: &str) -> (result: Result<(), Fat32Error>)
        requires
            old(self).well_formed(),
        ensures
            final(self).boot_sector() == old(self).boot_sector(),
            result is Err ==> final(self).spec_current_dir() == old(self).spec_current_dir(),
            result is Ok ==> {
                &&& old(self).leads_to(path.spec_bytes(), final(self).spec_current_dir())
                &&& final(self).spec_current_dir() >= 2
                &&& stays_in_place(path.spec_bytes()) ==> final(self).spec_current_dir() == old(
                    self,
                ).starting_cluster(path.spec_bytes())
            },
            old(self).starting_cluster(path.spec_bytes()) < 2 ==> result == Err::<(), Fat32Error>(
                Fat32Error::InvalidCluster,
            ),
    {
        let cluster: u32 = match self.resolve_path(path) {
            Ok(cluster) => cluster,
            Err(e) => {
                return Err(e);
            },
        };
        match self.read_directory(cluster) {
            Ok(_) => {},
            Err(e) => {
                return Err(e);
            },
        }
        self.current_directory = cluster;
        Ok(())
    }

    /// Lists the directory that `path` names, or the current directory
    /// where no path is given.
    ///
    /// The path is resolved by [`Self::resolve_path`] and the directory
    /// found is listed by [`Self::read_directory`]. A failure of either
    /// step is returned as it is.
    pub fn list_dir(&mut self, path: Option<&str>) -> (result: Result<
        Vec<DirectoryEntry>,
        Fat32Error,
    >)
        requires
            old(self).well_formed(),
        ensures
            final(self).boot_sector() == old(self).boot_sector(),
            final(self).spec_current_dir() == old(self).spec_current_dir(),
            result matches Ok(entries) ==> {
                &&& all_listed(records(entries@))
                &&& path matches Some(named) ==> exists|target: u32|
                    target >= 2 && #[trigger] old(self).leads_to(named.spec_bytes(), target)
            },
            path is None && old(self).spec_current_dir() < 2 ==> result == Err::<
                Vec<DirectoryEntry>,
                Fat32Error,
            >(Fat32Error::InvalidCluster),
            path matches Some(named) && old(self).starting_cluster(named.spec_bytes()) < 2
                ==> result == Err::<Vec<DirectoryEntry>, Fat32Error>(Fat32Error::InvalidCluster),
    {
        let cluster: u32 = match path {
            Some(named) => match self.resolve_path(named) {
                Ok(cluster) => cluster,
                Err(e) => {
                    return Err(e);
                },
            },
            None => self.current_directory,
        };
        self.read_directory(cluster)
    }

    /// Reads the file that `path` names.
    ///
    /// The path is split by [`Self::parse_path`], the directory is listed,
    /// and [`select_file`] answers for the listing with the file's first
    /// cluster and size. Where [`file_start`] finds that the file has no
    /// contents, the result is empty and nothing more is read. Otherwise
    /// the clusters of the chain that starts there are read in order, and
    /// [`file_data`] puts the result together from them. A failure on the
    /// way is returned as it is.
    ///
    /// The contract can state the result of some listing and some clusters
    /// only, not of those that the device has returned.
    pub fn read_file(&mut self, path: &str) -> (result: Result<Vec<u8>, Fat32Error>)
        requires
            old(self).well_formed(),
        ensures
            final(self).boot_sector() == old(self).boot_sector(),
            final(self).spec_current_dir() == old(self).spec_current_dir(),
            old(self).leaf_start(path.spec_bytes()) < 2 ==> result == Err::<Vec<u8>, Fat32Error>(
                Fat32Error::InvalidCluster,
            ),
            result matches Ok(data) ==> {
                &&& exists|directory: u32|
                    directory >= 2 && #[trigger] old(self).holds_leaf_of(
                        path.spec_bytes(),
                        directory,
                    )
                &&& exists|listed: Seq<DirectoryRecord>, clusters: Seq<Seq<u8>>|
                    {
                        &&& all_listed(listed)
                        &&& all_of_size(clusters, old(self).cluster_size())
                        &&& #[trigger] file_in(listed, leaf_part(path.spec_bytes()), clusters)
                            == Some(data@)
                    }
            },
    {
        let (directory, name) = match self.parse_path(path) {
            Ok(parts) => parts,
            Err(e) => {
                return Err(e);
            },
        };
        let entries: Vec<DirectoryEntry> = match self.read_directory(directory) {
            Ok(entries) => entries,
            Err(e) => {
                return Err(e);
            },
        };
        let ghost listed = records(entries@);
        let (first, size) = match select_file(&entries, name) {
            Ok(found) => found,
            Err(e) => {
                return Err(e);
            },
        };
        assert(old(self).holds_leaf_of(path.spec_bytes(), directory));
        let mut clusters: Vec<Vec<u8>> = Vec::new();
        let start: u32 = match file_start(first, size) {
            Some(start) => start,
            None => {
                let data: Vec<u8> = Vec::new();
                assert(contents(clusters@) =~= Seq::<Seq<u8>>::empty());
                assert(data@ =~= file_contents(contents(clusters@), size));
                assert(file_in(listed, name@, contents(clusters@)) == Some(data@));
                return Ok(data);
            },
        };
        let mut table = FatTable::new(&mut self.device, &self.boot_sector);
        let chain: Vec<u32> = match table.cluster_chain(start) {
            Ok(chain) => chain,
            Err(e) => {
                return Err(e);
            },
        };
        let mut index: usize = 0;
        assert(all_of_size(contents(clusters@), old(self).cluster_size()));
        while index < chain.len()
            invariant
                index <= chain@.len(),
                self.well_formed(),
                self.boot_sector() == old(self).boot_sector(),
                self.spec_current_dir() == old(self).spec_current_dir(),
                all_of_size(contents(clusters@), old(self).cluster_size()),
                old(self).leaf_start(path.spec_bytes()) >= 2,
            decreases chain@.len() - index,
        {
            let cluster: Vec<u8> = match self.read_cluster(chain[index]) {
                Ok(cluster) => cluster,
                Err(e) => {
                    return Err(e);
                },
            };
            let ghost before = contents(clusters@);
            let ghost read = cluster@;
            clusters.push(cluster);
            proof {
                assert(contents(clusters@) =~= before.push(read));
            }
            index = index + 1;
        }
        let data: Vec<u8> = file_data(&clusters, size);
        assert(file_in(listed, name@, contents(clusters@)) == Some(data@));
        Ok(data)
    }
}

} // verus!
