//! What a user can ask the tool to do, with what each request needs.

use std::path::PathBuf;
use vstd::prelude::*;
use crate::enums::{Chip, ImageFormat};
use crate::error::Error;
use crate::opts::{
    BoardInfoOpts, ConnectOpts, FlashConfigOpts, MonitorOpts, PartitionTableOpts,
};
use crate::write::{plan_write, plan_write_spec, WritePlan};

verus! {

/// The number that `input` spells for `parse_int::parse`, where it spells
/// one that fits in 32 bits.
pub uninterp spec fn parsed_u32(input: Seq<char>) -> Option<u32>;

/// Calls `parse_int::parse` for a `u32` and keeps the number where there is
/// one. The function reads nothing but `input`, so the result is named as a
/// function of it; nothing else is claimed of it.
#[verifier::external_body]
pub(crate) fn parse_uint32(input: &str) -> (r: Option<u32>)
    ensures
        r == parsed_u32(input@),
{
    parse_int::parse::<u32>(input).ok()
}

/// One request.
#[derive(Debug)]
pub enum Subcommand {
    BoardInfo(BoardInfoOpts),
    Flash(FlashOpts),
    Monitor(MonitorOpts),
    PartitionTable(PartitionTableOpts),
    SaveImage(SaveImageOpts),
    WriteBin(WriteBinOpts),
}

/// Flash an application to a target device
#[derive(Debug)]
pub struct FlashOpts {
    connect_opts: ConnectOpts,
    flash_opts: crate::opts::FlashOpts,
}

/// Save the image of an application to disk.
#[derive(Debug)]
pub struct SaveImageOpts {
    /// Image format to flash
    format: Option<String>,
    /// ELF image to flash
    image: PathBuf,
    pub flash_config_opts: FlashConfigOpts,
    save_image_opts: crate::opts::SaveImageOpts,
}

/// Writes a binary file to a specific address in the chip's flash
#[derive(Debug)]
pub struct WriteBinOpts {
    /// Address at which to write the binary file
    pub addr: u32,
    /// File containing the binary data to write
    pub bin_file: String,
    connect_opts: ConnectOpts,
}

impl FlashOpts {
    pub fn new(connect_opts: ConnectOpts, flash_opts: crate::opts::FlashOpts) -> (r: FlashOpts)
        ensures
            r.parts() == (connect_opts, flash_opts),
    {
        FlashOpts { connect_opts, flash_opts }
    }

    /// How to reach the device, and what to flash.
    pub closed spec fn parts(self) -> (ConnectOpts, crate::opts::FlashOpts) {
        (self.connect_opts, self.flash_opts)
    }

    /// Gives the two parts back.
    pub fn into_parts(self) -> (r: (ConnectOpts, crate::opts::FlashOpts))
        ensures
            r == self.parts(),
    {
        (self.connect_opts, self.flash_opts)
    }
}

impl SaveImageOpts {
    pub fn new(
        format: Option<String>,
        image: PathBuf,
        flash_config_opts: FlashConfigOpts,
        save_image_opts: crate::opts::SaveImageOpts,
    ) -> (r: SaveImageOpts)
        ensures
            r.format_name() == format,
            r.image_path() == image,
            r.flash_config() == flash_config_opts,
            r.save_opts() == save_image_opts,
    {
        SaveImageOpts { format, image, flash_config_opts, save_image_opts }
    }

    /// The flash configuration, as far as the user gave one.
    pub closed spec fn flash_config(self) -> FlashConfigOpts {
        self.flash_config_opts
    }

    /// The name of the image format, where the user gave one.
    pub closed spec fn format_name(self) -> Option<String> {
        self.format
    }

    /// The file that holds the application.
    pub closed spec fn image_path(self) -> PathBuf {
        self.image
    }

    /// Chip, merge flag and the files beside the application.
    pub closed spec fn save_opts(self) -> crate::opts::SaveImageOpts {
        self.save_image_opts
    }

    /// The image format that the user named: none where no name was given,
    /// else what the name reads as.
    pub fn format(&self) -> (r: Result<Option<ImageFormat>, String>)
        ensures
            match self.format_name() {
                None => r == Ok::<Option<ImageFormat>, String>(None),
                Some(name) => match ImageFormat::named(crate::case::lowercase(name@)) {
                    Some(f) => r == Ok::<Option<ImageFormat>, String>(Some(f)),
                    None => r is Err && r->Err_0@ == ImageFormat::invalid(
                        crate::case::lowercase(name@),
                    ),
                },
            },
    {
        match &self.format {
            None => Ok(None),
            Some(name) => match ImageFormat::parse(name.as_str()) {
                Ok(f) => Ok(Some(f)),
                Err(e) => Err(e),
            },
        }
    }

    /// The file that holds the application.
    pub fn image(&self) -> (r: &PathBuf)
        ensures
            *r == self.image_path(),
    {
        &self.image
    }

    /// Chip, merge flag and the files beside the application.
    pub fn save_image_opts(&self) -> (r: &crate::opts::SaveImageOpts)
        ensures
            *r == self.save_opts(),
    {
        &self.save_image_opts
    }
}

impl WriteBinOpts {
    pub fn new(addr: u32, bin_file: String, connect_opts: ConnectOpts) -> (r: WriteBinOpts)
        ensures
            r.address() == addr,
            r.file() == bin_file,
            r.connect() == connect_opts,
    {
        WriteBinOpts { addr, bin_file, connect_opts }
    }

    /// The address at which the file is to be written.
    pub closed spec fn address(self) -> u32 {
        self.addr
    }

    /// The file that holds the bytes.
    pub closed spec fn file(self) -> String {
        self.bin_file
    }

    /// How to reach the device.
    pub closed spec fn connect(self) -> ConnectOpts {
        self.connect_opts
    }

    /// Takes the address as the number that was read from what the user
    /// wrote: without a number there is no request.
    pub fn with_address(
        addr: Option<u32>,
        bin_file: String,
        connect_opts: ConnectOpts,
    ) -> (r: Option<WriteBinOpts>)
        ensures
            match addr {
                Some(a) => r is Some && r->Some_0.address() == a && r->Some_0.file() == bin_file
                    && r->Some_0.connect() == connect_opts,
                None => r is None,
            },
    {
        match addr {
            Some(a) => Some(WriteBinOpts { addr: a, bin_file, connect_opts }),
            None => None,
        }
    }

    /// Reads the address as the user wrote it, in decimal or behind `0x`,
    /// `0o` or `0b`, and makes the request where that is a number of 32
    /// bits.
    pub fn parse(addr: &str, bin_file: String, connect_opts: ConnectOpts) -> (r: Option<
        WriteBinOpts,
    >)
        ensures
            match parsed_u32(addr@) {
                Some(a) => r is Some && r->Some_0.address() == a && r->Some_0.file() == bin_file
                    && r->Some_0.connect() == connect_opts,
                None => r is None,
            },
    {
        WriteBinOpts::with_address(parse_uint32(addr), bin_file, connect_opts)
    }

    /// Plans the write of the bytes of the file on `chip`.
    pub fn plan(&self, data: Vec<u8>, chip: Chip) -> (r: Result<WritePlan, Error>)
        ensures
            match plan_write_spec(self.address(), data@, chip) {
                Ok(plan) => r is Ok && r->Ok_0@ == plan,
                Err(e) => r is Err && r->Err_0 == e,
            },
    {
        plan_write(self.addr, data, chip)
    }
}

} // verus!
