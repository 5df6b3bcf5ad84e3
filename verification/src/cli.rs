//! The configuration that a front end hands over once it has read and
//! checked what the user asked for.

use std::path::PathBuf;
use vstd::prelude::*;
use crate::app_image::Application;
use crate::assemble::{assemble, assemble_spec, input_of, Assembled};
use crate::binary::{
    is_binary, looks_binary, parse_binary, parse_binary_spec, serialize_binary,
    serialize_binary_spec,
};
use crate::enums::{Chip, FlashFrequency, FlashMode, FlashSettings, FlashSize};
use crate::error::Error;
use crate::partition::EntryView;
use crate::text::{parse_text, parse_text_spec, serialize_text, serialize_text_spec};

verus! {

/// `std::path::PathBuf`, carried through and never looked into.
#[verifier::external_type_specification]
#[verifier::external_body]
pub struct ExPathBuf(PathBuf);

/// How to reach the target device.
#[derive(Debug)]
pub struct ConnectArgs {
    /// Baud rate at which to communicate with target device
    pub baud: Option<u32>,
    /// Serial port connected to target device
    pub port: Option<String>,
}

/// The flash configuration, as far as the user gave one.
#[derive(Debug)]
pub struct FlashConfigArgs {
    /// Flash frequency
    pub flash_freq: Option<FlashFrequency>,
    /// Flash mode to use
    pub flash_mode: Option<FlashMode>,
    /// Flash size of the target
    pub flash_size: Option<FlashSize>,
}

/// Display information about the connected board and exit without flashing
#[derive(Debug)]
pub struct BoardInfoArgs {
    args: ConnectArgs,
}

/// What to flash beside the application, and how.
#[derive(Debug)]
pub struct FlashArgs {
    /// Path to a binary (.bin) bootloader file
    pub bootloader: Option<PathBuf>,
    /// Open a serial monitor after flashing
    pub monitor: bool,
    /// Path to a CSV file containing partition table
    pub partition_table: Option<PathBuf>,
    /// Load the application to RAM instead of Flash
    pub ram: bool,
}

/// Open the serial monitor without flashing
#[derive(Debug)]
pub struct MonitorArgs {
    args: ConnectArgs,
}

/// Operations for partitions tables
#[derive(Debug)]
pub struct PartitionTableArgs {
    /// Optional output file name, if unset will output to stdout
    output: Option<PathBuf>,
    /// Input partition table
    partition_table: PathBuf,
    /// Convert CSV parition table to binary representation
    to_binary: bool,
    /// Convert binary partition table to CSV representation
    to_csv: bool,
}

/// Save the image to disk instead of flashing to device
#[derive(Debug)]
pub struct SaveImageArgs {
    /// Custom bootloader for merging
    pub bootloader: Option<PathBuf>,
    /// Chip to create an image for
    pub chip: Chip,
    /// File name to save the generated image to
    pub file: PathBuf,
    /// Boolean flag to merge binaries into single binary
    pub merge: bool,
    /// Custom partition table for merging
    pub partition_table: Option<PathBuf>,
}

/// The flash mode that is taken where the user names none.
pub open spec fn default_mode() -> FlashMode {
    FlashMode::Dio
}

/// The flash size that is taken where the user names none.
pub open spec fn default_size() -> FlashSize {
    FlashSize::Flash4Mb
}

/// The flash frequency that is taken where the user names none: the one
/// that the chip's firmware header spells as zero.
pub open spec fn default_frequency(chip: Chip) -> FlashFrequency {
    match chip {
        Chip::Esp32c2 => FlashFrequency::Flash30M,
        _ => FlashFrequency::Flash40M,
    }
}

impl FlashConfigArgs {
    /// The whole configuration: what the user gave, and for the rest the
    /// defaults of `chip`. A value that the user gave is never replaced.
    pub open spec fn spec_settings(self, chip: Chip) -> FlashSettings {
        FlashSettings {
            mode: match self.flash_mode {
                Some(mode) => mode,
                None => default_mode(),
            },
            frequency: match self.flash_freq {
                Some(frequency) => frequency,
                None => default_frequency(chip),
            },
            size: match self.flash_size {
                Some(size) => size,
                None => default_size(),
            },
        }
    }

    /// The whole configuration for `chip`.
    pub fn settings(&self, chip: Chip) -> (r: FlashSettings)
        ensures
            r == self.spec_settings(chip),
    {
        FlashSettings {
            mode: match self.flash_mode {
                Some(mode) => mode,
                None => FlashMode::Dio,
            },
            frequency: match self.flash_freq {
                Some(frequency) => frequency,
                None => match chip {
                    Chip::Esp32c2 => FlashFrequency::Flash30M,
                    _ => FlashFrequency::Flash40M,
                },
            },
            size: match self.flash_size {
                Some(size) => size,
                None => FlashSize::Flash4Mb,
            },
        }
    }
}

impl BoardInfoArgs {
    pub fn new(args: ConnectArgs) -> (r: BoardInfoArgs)
        ensures
            r.connect_args() == args,
    {
        BoardInfoArgs { args }
    }

    /// How to reach the board.
    pub closed spec fn connect_args(self) -> ConnectArgs {
        self.args
    }

    /// How to reach the board.
    pub fn connect(&self) -> (r: &ConnectArgs)
        ensures
            *r == self.connect_args(),
    {
        &self.args
    }
}

impl MonitorArgs {
    pub fn new(args: ConnectArgs) -> (r: MonitorArgs)
        ensures
            r.connect_args() == args,
    {
        MonitorArgs { args }
    }

    /// How to reach the device.
    pub closed spec fn connect_args(self) -> ConnectArgs {
        self.args
    }

    /// How to reach the device.
    pub fn connect(&self) -> (r: &ConnectArgs)
        ensures
            *r == self.connect_args(),
    {
        &self.args
    }
}

/// What is to be done with a partition table.
#[derive(Debug, Clone, Copy, PartialEq, Eq, Structural)]
pub enum Conversion {
    /// Text is read and the binary form is written.
    ToBinary,
    /// The binary form is read and text is written.
    ToCsv,
    /// The table is read in the form it comes in and written as text, to be
    /// shown.
    Show,
}

/// What a conversion makes of `input`. No flash size is configured here, so
/// a table may reach as far as addresses do.
pub open spec fn convert_spec(conversion: Conversion, input: Seq<u8>) -> Result<Seq<u8>, Error> {
    match conversion {
        Conversion::ToBinary => match parse_text_spec(input, u32::MAX, Seq::empty()) {
            Ok(es) => Ok(serialize_binary_spec(es)),
            Err(e) => Err(e),
        },
        Conversion::ToCsv => match parse_binary_spec(input, u32::MAX) {
            Ok(es) => Ok(serialize_text_spec(es)),
            Err(e) => Err(e),
        },
        Conversion::Show => match (if looks_binary(input) {
            parse_binary_spec(input, u32::MAX)
        } else {
            parse_text_spec(input, u32::MAX, Seq::empty())
        }) {
            Ok(es) => Ok(serialize_text_spec(es)),
            Err(e) => Err(e),
        },
    }
}

/// Converts a partition table from one form to the other.
pub fn convert_table(conversion: Conversion, input: &[u8]) -> (r: Result<Vec<u8>, Error>)
    ensures
        match convert_spec(conversion, input@) {
            Ok(bytes) => r is Ok && r->Ok_0@ == bytes,
            Err(e) => r is Err && r->Err_0 == e,
        },
{
    match conversion {
        Conversion::ToBinary => match parse_text(input, u32::MAX) {
            Ok(table) => Ok(serialize_binary(&table)),
            Err(e) => Err(e),
        },
        Conversion::ToCsv => match parse_binary(input, u32::MAX) {
            Ok(table) => Ok(serialize_text(&table)),
            Err(e) => Err(e),
        },
        Conversion::Show => {
            let parsed = if is_binary(input) {
                parse_binary(input, u32::MAX)
            } else {
                parse_text(input, u32::MAX)
            };
            match parsed {
                Ok(table) => Ok(serialize_text(&table)),
                Err(e) => Err(e),
            }
        },
    }
}

impl PartitionTableArgs {
    pub fn new(
        output: Option<PathBuf>,
        partition_table: PathBuf,
        to_binary: bool,
        to_csv: bool,
    ) -> (r: PartitionTableArgs)
        ensures
            r.spec_conversion() == (if to_binary {
                Conversion::ToBinary
            } else if to_csv {
                Conversion::ToCsv
            } else {
                Conversion::Show
            }),
            r.spec_input() == partition_table,
            r.spec_output() == output,
    {
        PartitionTableArgs { output, partition_table, to_binary, to_csv }
    }

    /// Where the table is read from.
    pub closed spec fn spec_input(self) -> PathBuf {
        self.partition_table
    }

    /// Where the result goes.
    pub closed spec fn spec_output(self) -> Option<PathBuf> {
        self.output
    }

    /// What the two flags ask for. They exclude each other; should both be
    /// set all the same, the binary form is written.
    pub closed spec fn spec_conversion(self) -> Conversion {
        if self.to_binary {
            Conversion::ToBinary
        } else if self.to_csv {
            Conversion::ToCsv
        } else {
            Conversion::Show
        }
    }

    /// What the two flags ask for.
    pub fn conversion(&self) -> (r: Conversion)
        ensures
            r == self.spec_conversion(),
    {
        if self.to_binary {
            Conversion::ToBinary
        } else if self.to_csv {
            Conversion::ToCsv
        } else {
            Conversion::Show
        }
    }

    /// Where the table is read from.
    pub fn input(&self) -> (r: &PathBuf)
        ensures
            *r == self.spec_input(),
    {
        &self.partition_table
    }

    /// Where the result goes; standard output where this is nothing.
    pub fn output(&self) -> (r: &Option<PathBuf>)
        ensures
            *r == self.spec_output(),
    {
        &self.output
    }

    /// Converts the bytes of the input as the flags ask.
    pub fn convert(&self, input: &[u8]) -> (r: Result<Vec<u8>, Error>)
        ensures
            match convert_spec(self.spec_conversion(), input@) {
                Ok(bytes) => r is Ok && r->Ok_0@ == bytes,
                Err(e) => r is Err && r->Err_0 == e,
            },
    {
        convert_table(self.conversion(), input)
    }
}

impl SaveImageArgs {
    /// Assembles the image that is to be saved: for the chip and with the
    /// merge flag of these arguments, with the flash configuration of
    /// `config`, from the bytes that the caller has read.
    pub fn assemble(
        &self,
        config: &FlashConfigArgs,
        bootloader: Option<&[u8]>,
        app: &Application,
        partition_table: Option<&[u8]>,
    ) -> (r: Result<Assembled, Error>)
        ensures
            match assemble_spec(
                input_of(
                    self.chip,
                    config.spec_settings(self.chip),
                    bootloader,
                    app,
                    partition_table,
                ),
                self.merge,
            ) {
                Ok(done) => r is Ok && r->Ok_0@ == done,
                Err(e) => r is Err && r->Err_0 == e,
            },
    {
        assemble(
            self.chip,
            config.settings(self.chip),
            bootloader,
            app,
            partition_table,
            self.merge,
        )
    }
}

} // verus!
