use vstd::prelude::*;

verus! {

/// The `era_check` tool: validates era metadata on a device or file.
pub struct EraCheckCommand;

/// The `era_repair` tool: repairs binary era metadata into another device
/// or file.
pub struct EraRepairCommand;

/// The `thin_metadata_size` tool: estimates the metadata device size that a
/// pool configuration needs.
pub struct ThinMetadataSizeCommand;

/// The `thin_restore` tool: converts XML metadata to binary.
pub struct ThinRestoreCommand;

impl EraCheckCommand {
    /// The tool's name.
    pub fn name(&self) -> (r: &'static str)
        ensures
            r@ == "era_check"@,
    {
        "era_check"
    }
}

impl EraRepairCommand {
    /// The tool's name.
    pub fn name(&self) -> (r: &'static str)
        ensures
            r@ == "era_repair"@,
    {
        "era_repair"
    }
}

impl ThinRestoreCommand {
    /// The tool's name.
    pub fn name(&self) -> (r: &'static str)
        ensures
            r@ == "thin_restore"@,
    {
        "thin_restore"
    }
}

impl ThinMetadataSizeCommand {
    /// The tool's name.
    pub fn name(&self) -> (r: &'static str)
        ensures
            r@ == "thin_metadata_size"@,
    {
        "thin_metadata_size"
    }

    /// The number of whole data blocks in a pool of `pool_size` sectors with
    /// data blocks of `block_size` sectors.
    pub fn nr_data_blocks(&self, pool_size: u64, block_size: u32) -> (r: u64)
        requires
            block_size > 0,
        ensures
            r == pool_size / (block_size as u64),
    {
        pool_size / (block_size as u64)
    }
}

} // verus!
