//! The configuration as the single program names it: each of these turns
//! into its counterpart of `cli`.

use std::path::PathBuf;
use vstd::prelude::*;
use crate::cli::{
    BoardInfoArgs, ConnectArgs, FlashArgs, FlashConfigArgs, MonitorArgs, PartitionTableArgs,
    SaveImageArgs,
};
use crate::enums::{Chip, FlashFrequency, FlashMode, FlashSize};

verus! {

/// How to reach the target device.
#[derive(Debug)]
pub struct ConnectOpts {
    /// Serial port connected to target device
    pub serial: Option<String>,
    /// Baud rate at which to communicate with target device
    pub speed: Option<u32>,
}

/// The flash configuration, as far as the user gave one.
#[derive(Debug)]
pub struct FlashConfigOpts {
    /// Flash mode to use
    pub flash_mode: Option<FlashMode>,
    /// Flash size of the target
    pub flash_size: Option<FlashSize>,
    /// Flash frequency
    pub flash_freq: Option<FlashFrequency>,
}

/// Display information about the connected board and exit without flashing
#[derive(Debug)]
pub struct BoardInfoOpts {
    opts: ConnectOpts,
}

/// What to flash beside the application, and how.
#[derive(Debug)]
pub struct FlashOpts {
    /// Path to a binary (.bin) bootloader file
    pub bootloader: Option<PathBuf>,
    /// Open a serial monitor after flashing
    pub monitor: bool,
    /// Path to a CSV file containing partition table
    pub partition_table: Option<PathBuf>,
    /// Load the application to RAM instead of Flash
    pub ram: bool,
}

/// Open the serial monitor without flashing
#[derive(Debug)]
pub struct MonitorOpts {
    opts: ConnectOpts,
}

/// Operations for partitions tables
#[derive(Debug)]
pub struct PartitionTableOpts {
    /// Convert CSV parition table to binary representation
    to_binary: bool,
    /// Convert binary partition table to CSV representation
    to_csv: bool,
    /// Input partition table
    partition_table: PathBuf,
    /// Optional output file name, if unset will output to stdout
    output: Option<PathBuf>,
}

/// Save the image to disk instead of flashing to device
#[derive(Debug)]
pub struct SaveImageOpts {
    /// Custom bootloader for merging
    pub bootloader: Option<PathBuf>,
    /// Chip to create an image for
    pub chip: Chip,
    /// File name to save the generated image to
    pub file: PathBuf,
    /// Boolean flag to merge binaries into single binary
    pub merge: bool,
    /// Custom partition table for merging
    pub partition_table: Option<PathBuf>,
}

impl ConnectOpts {
    pub fn into_args(self) -> (r: ConnectArgs)
        ensures
            r == (ConnectArgs { baud: self.speed, port: self.serial }),
    {
        ConnectArgs { baud: self.speed, port: self.serial }
    }
}

impl FlashConfigOpts {
    pub fn into_args(self) -> (r: FlashConfigArgs)
        ensures
            r == (FlashConfigArgs {
                flash_freq: self.flash_freq,
                flash_mode: self.flash_mode,
                flash_size: self.flash_size,
            }),
    {
        FlashConfigArgs {
            flash_freq: self.flash_freq,
            flash_mode: self.flash_mode,
            flash_size: self.flash_size,
        }
    }
}

impl BoardInfoOpts {
    pub fn new(opts: ConnectOpts) -> (r: BoardInfoOpts)
        ensures
            r.connect_opts() == opts,
    {
        BoardInfoOpts { opts }
    }

    /// How to reach the board.
    pub closed spec fn connect_opts(self) -> ConnectOpts {
        self.opts
    }

    pub fn into_args(self) -> (r: BoardInfoArgs)
        ensures
            r.connect_args() == (ConnectArgs {
                baud: self.connect_opts().speed,
                port: self.connect_opts().serial,
            }),
    {
        BoardInfoArgs::new(self.opts.into_args())
    }
}

impl FlashOpts {
    pub fn into_args(self) -> (r: FlashArgs)
        ensures
            r == (FlashArgs {
                bootloader: self.bootloader,
                monitor: self.monitor,
                partition_table: self.partition_table,
                ram: self.ram,
            }),
    {
        FlashArgs {
            bootloader: self.bootloader,
            monitor: self.monitor,
            partition_table: self.partition_table,
            ram: self.ram,
        }
    }
}

impl MonitorOpts {
    pub fn new(opts: ConnectOpts) -> (r: MonitorOpts)
        ensures
            r.connect_opts() == opts,
    {
        MonitorOpts { opts }
    }

    /// How to reach the device.
    pub closed spec fn connect_opts(self) -> ConnectOpts {
        self.opts
    }

    pub fn into_args(self) -> (r: MonitorArgs)
        ensures
            r.connect_args() == (ConnectArgs {
                baud: self.connect_opts().speed,
                port: self.connect_opts().serial,
            }),
    {
        MonitorArgs::new(self.opts.into_args())
    }
}

impl PartitionTableOpts {
    pub fn new(
        to_binary: bool,
        to_csv: bool,
        partition_table: PathBuf,
        output: Option<PathBuf>,
    ) -> (r: PartitionTableOpts)
        ensures
            r.spec_args() == (to_binary, to_csv, partition_table, output),
    {
        PartitionTableOpts { to_binary, to_csv, partition_table, output }
    }

    /// The two flags, the input and the output.
    pub closed spec fn spec_args(self) -> (bool, bool, PathBuf, Option<PathBuf>) {
        (self.to_binary, self.to_csv, self.partition_table, self.output)
    }

    pub fn into_args(self) -> (r: PartitionTableArgs)
        ensures
            r.spec_conversion() == (if self.spec_args().0 {
                crate::cli::Conversion::ToBinary
            } else if self.spec_args().1 {
                crate::cli::Conversion::ToCsv
            } else {
                crate::cli::Conversion::Show
            }),
            r.spec_input() == self.spec_args().2,
            r.spec_output() == self.spec_args().3,
    {
        PartitionTableArgs::new(self.output, self.partition_table, self.to_binary, self.to_csv)
    }
}

impl SaveImageOpts {
    pub fn into_args(self) -> (r: SaveImageArgs)
        ensures
            r == (SaveImageArgs {
                bootloader: self.bootloader,
                chip: self.chip,
                file: self.file,
                merge: self.merge,
                partition_table: self.partition_table,
            }),
    {
        SaveImageArgs {
            bootloader: self.bootloader,
            chip: self.chip,
            file: self.file,
            merge: self.merge,
            partition_table: self.partition_table,
        }
    }
}

} // verus!
