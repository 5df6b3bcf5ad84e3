//! The names of the values of a flash configuration: how each is written,
//! and how what a user wrote is read.

use std::str::FromStr;
use vstd::prelude::*;
use crate::case::{framed, lowercase, same_text, to_lowercase, to_uppercase, uppercase};
use crate::enums::{Chip, FlashFrequency, FlashMode, FlashSize, ImageFormat};

verus! {

impl Chip {
    /// How the chip is written.
    pub open spec fn spec_name(self) -> Seq<char> {
        match self {
            Chip::Esp32 => "esp32"@,
            Chip::Esp32c2 => "esp32c2"@,
            Chip::Esp32c3 => "esp32c3"@,
            Chip::Esp32s2 => "esp32s2"@,
            Chip::Esp32s3 => "esp32s3"@,
            Chip::Esp8266 => "esp8266"@,
        }
    }

    /// How the chip is written.
    pub fn name(self) -> (r: &'static str)
        ensures
            r@ == self.spec_name(),
    {
        match self {
            Chip::Esp32 => "esp32",
            Chip::Esp32c2 => "esp32c2",
            Chip::Esp32c3 => "esp32c3",
            Chip::Esp32s2 => "esp32s2",
            Chip::Esp32s3 => "esp32s3",
            Chip::Esp8266 => "esp8266",
        }
    }

    /// The name as an owned string.
    pub fn to_string(&self) -> (r: String)
        ensures
            r@ == self.spec_name(),
    {
        self.name().to_owned()
    }

    /// The names of all the values, in the order of their declaration.
    pub fn variants() -> (r: Vec<&'static str>)
        ensures
            r@.len() == 6,
            r@[0]@ == Chip::Esp32.spec_name(),
            r@[1]@ == Chip::Esp32c2.spec_name(),
            r@[2]@ == Chip::Esp32c3.spec_name(),
            r@[3]@ == Chip::Esp32s2.spec_name(),
            r@[4]@ == Chip::Esp32s3.spec_name(),
            r@[5]@ == Chip::Esp8266.spec_name(),
    {
        let mut names: Vec<&'static str> = Vec::new();
        names.push("esp32");
        names.push("esp32c2");
        names.push("esp32c3");
        names.push("esp32s2");
        names.push("esp32s3");
        names.push("esp8266");
        names
    }

    /// The chip that has the name `name`, letter for letter.
    pub open spec fn named(name: Seq<char>) -> Option<Chip> {
        if name == "esp32"@ {
            Some(Chip::Esp32)
        } else if name == "esp32c2"@ {
            Some(Chip::Esp32c2)
        } else if name == "esp32c3"@ {
            Some(Chip::Esp32c3)
        } else if name == "esp32s2"@ {
            Some(Chip::Esp32s2)
        } else if name == "esp32s3"@ {
            Some(Chip::Esp32s3)
        } else if name == "esp8266"@ {
            Some(Chip::Esp8266)
        } else {
            None
        }
    }

    /// What is said of a name that is no chip.
    pub open spec fn invalid(name: Seq<char>) -> Seq<char> {
        "invalid chip name '"@ + name + "'!"@
    }

    /// Reads a name that is already in lower case: the chip of that
    /// name, or the complaint about it.
    pub fn from_name(name: &str) -> (r: Result<Chip, String>)
        ensures
            match Chip::named(name@) {
                Some(v) => r == Ok::<Chip, String>(v),
                None => r is Err && r->Err_0@ == Chip::invalid(name@),
            },
    {
        if same_text(name, "esp32") {
            Ok(Chip::Esp32)
        } else if same_text(name, "esp32c2") {
            Ok(Chip::Esp32c2)
        } else if same_text(name, "esp32c3") {
            Ok(Chip::Esp32c3)
        } else if same_text(name, "esp32s2") {
            Ok(Chip::Esp32s2)
        } else if same_text(name, "esp32s3") {
            Ok(Chip::Esp32s3)
        } else if same_text(name, "esp8266") {
            Ok(Chip::Esp8266)
        } else {
            Err(framed("invalid chip name '", name, "'!"))
        }
    }

    /// Reads what a user wrote, in whatever case: `s` is put in lower case
    /// and then read as a name.
    pub fn parse(s: &str) -> (r: Result<Chip, String>)
        ensures
            match Chip::named(lowercase(s@)) {
                Some(v) => r == Ok::<Chip, String>(v),
                None => r is Err && r->Err_0@ == Chip::invalid(lowercase(s@)),
            },
    {
        let folded = to_lowercase(s);
        Chip::from_name(folded.as_str())
    }
}

impl FromStr for Chip {
    type Err = String;

    /// Reads what a user wrote, in whatever case, as `parse` does.
    fn from_str(s: &str) -> (r: Result<Self, Self::Err>)
        ensures
            match Chip::named(lowercase(s@)) {
                Some(v) => r == Ok::<Chip, String>(v),
                None => r is Err && r->Err_0@ == Chip::invalid(lowercase(s@)),
            },
    {
        Chip::parse(s)
    }
}

impl ImageFormat {
    /// How the image format is written.
    pub open spec fn spec_name(self) -> Seq<char> {
        match self {
            ImageFormat::IdfBoot => "idf-boot"@,
            ImageFormat::DirectBoot => "direct-boot"@,
            ImageFormat::McuBoot => "mcu-boot"@,
        }
    }

    /// How the image format is written.
    pub fn name(self) -> (r: &'static str)
        ensures
            r@ == self.spec_name(),
    {
        match self {
            ImageFormat::IdfBoot => "idf-boot",
            ImageFormat::DirectBoot => "direct-boot",
            ImageFormat::McuBoot => "mcu-boot",
        }
    }

    /// The name as an owned string.
    pub fn to_string(&self) -> (r: String)
        ensures
            r@ == self.spec_name(),
    {
        self.name().to_owned()
    }

    /// The names of all the values, in the order of their declaration.
    pub fn variants() -> (r: Vec<&'static str>)
        ensures
            r@.len() == 3,
            r@[0]@ == ImageFormat::IdfBoot.spec_name(),
            r@[1]@ == ImageFormat::DirectBoot.spec_name(),
            r@[2]@ == ImageFormat::McuBoot.spec_name(),
    {
        let mut names: Vec<&'static str> = Vec::new();
        names.push("idf-boot");
        names.push("direct-boot");
        names.push("mcu-boot");
        names
    }

    /// The image format that has the name `name`, letter for letter.
    pub open spec fn named(name: Seq<char>) -> Option<ImageFormat> {
        if name == "idf-boot"@ {
            Some(ImageFormat::IdfBoot)
        } else if name == "direct-boot"@ {
            Some(ImageFormat::DirectBoot)
        } else if name == "mcu-boot"@ {
            Some(ImageFormat::McuBoot)
        } else {
            None
        }
    }

    /// What is said of a name that is no image format.
    pub open spec fn invalid(name: Seq<char>) -> Seq<char> {
        "invalid image format '"@ + name + "'!"@
    }

    /// Reads a name that is already in lower case: the image format of that
    /// name, or the complaint about it.
    pub fn from_name(name: &str) -> (r: Result<ImageFormat, String>)
        ensures
            match ImageFormat::named(name@) {
                Some(v) => r == Ok::<ImageFormat, String>(v),
                None => r is Err && r->Err_0@ == ImageFormat::invalid(name@),
            },
    {
        if same_text(name, "idf-boot") {
            Ok(ImageFormat::IdfBoot)
        } else if same_text(name, "direct-boot") {
            Ok(ImageFormat::DirectBoot)
        } else if same_text(name, "mcu-boot") {
            Ok(ImageFormat::McuBoot)
        } else {
            Err(framed("invalid image format '", name, "'!"))
        }
    }

    /// Reads what a user wrote, in whatever case: `s` is put in lower case
    /// and then read as a name.
    pub fn parse(s: &str) -> (r: Result<ImageFormat, String>)
        ensures
            match ImageFormat::named(lowercase(s@)) {
                Some(v) => r == Ok::<ImageFormat, String>(v),
                None => r is Err && r->Err_0@ == ImageFormat::invalid(lowercase(s@)),
            },
    {
        let folded = to_lowercase(s);
        ImageFormat::from_name(folded.as_str())
    }
}

impl FromStr for ImageFormat {
    type Err = String;

    /// Reads what a user wrote, in whatever case, as `parse` does.
    fn from_str(s: &str) -> (r: Result<Self, Self::Err>)
        ensures
            match ImageFormat::named(lowercase(s@)) {
                Some(v) => r == Ok::<ImageFormat, String>(v),
                None => r is Err && r->Err_0@ == ImageFormat::invalid(lowercase(s@)),
            },
    {
        ImageFormat::parse(s)
    }
}

impl FlashFrequency {
    /// How the flash frequency is written.
    pub open spec fn spec_name(self) -> Seq<char> {
        match self {
            FlashFrequency::Flash12M => "12M"@,
            FlashFrequency::Flash15M => "15M"@,
            FlashFrequency::Flash16M => "16M"@,
            FlashFrequency::Flash20M => "20M"@,
            FlashFrequency::Flash24M => "24M"@,
            FlashFrequency::Flash26M => "26M"@,
            FlashFrequency::Flash30M => "30M"@,
            FlashFrequency::Flash40M => "40M"@,
            FlashFrequency::Flash48M => "48M"@,
            FlashFrequency::Flash60M => "60M"@,
            FlashFrequency::Flash80M => "80M"@,
        }
    }

    /// How the flash frequency is written.
    pub fn name(self) -> (r: &'static str)
        ensures
            r@ == self.spec_name(),
    {
        match self {
            FlashFrequency::Flash12M => "12M",
            FlashFrequency::Flash15M => "15M",
            FlashFrequency::Flash16M => "16M",
            FlashFrequency::Flash20M => "20M",
            FlashFrequency::Flash24M => "24M",
            FlashFrequency::Flash26M => "26M",
            FlashFrequency::Flash30M => "30M",
            FlashFrequency::Flash40M => "40M",
            FlashFrequency::Flash48M => "48M",
            FlashFrequency::Flash60M => "60M",
            FlashFrequency::Flash80M => "80M",
        }
    }

    /// The name as an owned string.
    pub fn to_string(&self) -> (r: String)
        ensures
            r@ == self.spec_name(),
    {
        self.name().to_owned()
    }

    /// The names of all the values, in the order of their declaration.
    pub fn variants() -> (r: Vec<&'static str>)
        ensures
            r@.len() == 11,
            r@[0]@ == FlashFrequency::Flash12M.spec_name(),
            r@[1]@ == FlashFrequency::Flash15M.spec_name(),
            r@[2]@ == FlashFrequency::Flash16M.spec_name(),
            r@[3]@ == FlashFrequency::Flash20M.spec_name(),
            r@[4]@ == FlashFrequency::Flash24M.spec_name(),
            r@[5]@ == FlashFrequency::Flash26M.spec_name(),
            r@[6]@ == FlashFrequency::Flash30M.spec_name(),
            r@[7]@ == FlashFrequency::Flash40M.spec_name(),
            r@[8]@ == FlashFrequency::Flash48M.spec_name(),
            r@[9]@ == FlashFrequency::Flash60M.spec_name(),
            r@[10]@ == FlashFrequency::Flash80M.spec_name(),
    {
        let mut names: Vec<&'static str> = Vec::new();
        names.push("12M");
        names.push("15M");
        names.push("16M");
        names.push("20M");
        names.push("24M");
        names.push("26M");
        names.push("30M");
        names.push("40M");
        names.push("48M");
        names.push("60M");
        names.push("80M");
        names
    }

    /// The flash frequency that has the name `name`, letter for letter.
    pub open spec fn named(name: Seq<char>) -> Option<FlashFrequency> {
        if name == "12M"@ {
            Some(FlashFrequency::Flash12M)
        } else if name == "15M"@ {
            Some(FlashFrequency::Flash15M)
        } else if name == "16M"@ {
            Some(FlashFrequency::Flash16M)
        } else if name == "20M"@ {
            Some(FlashFrequency::Flash20M)
        } else if name == "24M"@ {
            Some(FlashFrequency::Flash24M)
        } else if name == "26M"@ {
            Some(FlashFrequency::Flash26M)
        } else if name == "30M"@ {
            Some(FlashFrequency::Flash30M)
        } else if name == "40M"@ {
            Some(FlashFrequency::Flash40M)
        } else if name == "48M"@ {
            Some(FlashFrequency::Flash48M)
        } else if name == "60M"@ {
            Some(FlashFrequency::Flash60M)
        } else if name == "80M"@ {
            Some(FlashFrequency::Flash80M)
        } else {
            None
        }
    }

    /// What is said of a name that is no flash frequency.
    pub open spec fn invalid(name: Seq<char>) -> Seq<char> {
        "invalid flash frequency '"@ + name + "'!"@
    }

    /// Reads a name that is already in upper case: the flash frequency of that
    /// name, or the complaint about it.
    pub fn from_name(name: &str) -> (r: Result<FlashFrequency, String>)
        ensures
            match FlashFrequency::named(name@) {
                Some(v) => r == Ok::<FlashFrequency, String>(v),
                None => r is Err && r->Err_0@ == FlashFrequency::invalid(name@),
            },
    {
        if same_text(name, "12M") {
            Ok(FlashFrequency::Flash12M)
        } else if same_text(name, "15M") {
            Ok(FlashFrequency::Flash15M)
        } else if same_text(name, "16M") {
            Ok(FlashFrequency::Flash16M)
        } else if same_text(name, "20M") {
            Ok(FlashFrequency::Flash20M)
        } else if same_text(name, "24M") {
            Ok(FlashFrequency::Flash24M)
        } else if same_text(name, "26M") {
            Ok(FlashFrequency::Flash26M)
        } else if same_text(name, "30M") {
            Ok(FlashFrequency::Flash30M)
        } else if same_text(name, "40M") {
            Ok(FlashFrequency::Flash40M)
        } else if same_text(name, "48M") {
            Ok(FlashFrequency::Flash48M)
        } else if same_text(name, "60M") {
            Ok(FlashFrequency::Flash60M)
        } else if same_text(name, "80M") {
            Ok(FlashFrequency::Flash80M)
        } else {
            Err(framed("invalid flash frequency '", name, "'!"))
        }
    }

    /// Reads what a user wrote, in whatever case: `s` is put in upper case
    /// and then read as a name.
    pub fn parse(s: &str) -> (r: Result<FlashFrequency, String>)
        ensures
            match FlashFrequency::named(uppercase(s@)) {
                Some(v) => r == Ok::<FlashFrequency, String>(v),
                None => r is Err && r->Err_0@ == FlashFrequency::invalid(uppercase(s@)),
            },
    {
        let folded = to_uppercase(s);
        FlashFrequency::from_name(folded.as_str())
    }
}

impl FromStr for FlashFrequency {
    type Err = String;

    /// Reads what a user wrote, in whatever case, as `parse` does.
    fn from_str(s: &str) -> (r: Result<Self, Self::Err>)
        ensures
            match FlashFrequency::named(uppercase(s@)) {
                Some(v) => r == Ok::<FlashFrequency, String>(v),
                None => r is Err && r->Err_0@ == FlashFrequency::invalid(uppercase(s@)),
            },
    {
        FlashFrequency::parse(s)
    }
}

impl FlashMode {
    /// How the flash mode is written.
    pub open spec fn spec_name(self) -> Seq<char> {
        match self {
            FlashMode::Qio => "QIO"@,
            FlashMode::Qout => "QOUT"@,
            FlashMode::Dio => "DIO"@,
            FlashMode::Dout => "DOUT"@,
        }
    }

    /// How the flash mode is written.
    pub fn name(self) -> (r: &'static str)
        ensures
            r@ == self.spec_name(),
    {
        match self {
            FlashMode::Qio => "QIO",
            FlashMode::Qout => "QOUT",
            FlashMode::Dio => "DIO",
            FlashMode::Dout => "DOUT",
        }
    }

    /// The name as an owned string.
    pub fn to_string(&self) -> (r: String)
        ensures
            r@ == self.spec_name(),
    {
        self.name().to_owned()
    }

    /// The names of all the values, in the order of their declaration.
    pub fn variants() -> (r: Vec<&'static str>)
        ensures
            r@.len() == 4,
            r@[0]@ == FlashMode::Qio.spec_name(),
            r@[1]@ == FlashMode::Qout.spec_name(),
            r@[2]@ == FlashMode::Dio.spec_name(),
            r@[3]@ == FlashMode::Dout.spec_name(),
    {
        let mut names: Vec<&'static str> = Vec::new();
        names.push("QIO");
        names.push("QOUT");
        names.push("DIO");
        names.push("DOUT");
        names
    }

    /// The flash mode that has the name `name`, letter for letter.
    pub open spec fn named(name: Seq<char>) -> Option<FlashMode> {
        if name == "QIO"@ {
            Some(FlashMode::Qio)
        } else if name == "QOUT"@ {
            Some(FlashMode::Qout)
        } else if name == "DIO"@ {
            Some(FlashMode::Dio)
        } else if name == "DOUT"@ {
            Some(FlashMode::Dout)
        } else {
            None
        }
    }

    /// What is said of a name that is no flash mode.
    pub open spec fn invalid(name: Seq<char>) -> Seq<char> {
        "invalid flash mode '"@ + name + "'!"@
    }

    /// Reads a name that is already in upper case: the flash mode of that
    /// name, or the complaint about it.
    pub fn from_name(name: &str) -> (r: Result<FlashMode, String>)
        ensures
            match FlashMode::named(name@) {
                Some(v) => r == Ok::<FlashMode, String>(v),
                None => r is Err && r->Err_0@ == FlashMode::invalid(name@),
            },
    {
        if same_text(name, "QIO") {
            Ok(FlashMode::Qio)
        } else if same_text(name, "QOUT") {
            Ok(FlashMode::Qout)
        } else if same_text(name, "DIO") {
            Ok(FlashMode::Dio)
        } else if same_text(name, "DOUT") {
            Ok(FlashMode::Dout)
        } else {
            Err(framed("invalid flash mode '", name, "'!"))
        }
    }

    /// Reads what a user wrote, in whatever case: `s` is put in upper case
    /// and then read as a name.
    pub fn parse(s: &str) -> (r: Result<FlashMode, String>)
        ensures
            match FlashMode::named(uppercase(s@)) {
                Some(v) => r == Ok::<FlashMode, String>(v),
                None => r is Err && r->Err_0@ == FlashMode::invalid(uppercase(s@)),
            },
    {
        let folded = to_uppercase(s);
        FlashMode::from_name(folded.as_str())
    }
}

impl FromStr for FlashMode {
    type Err = String;

    /// Reads what a user wrote, in whatever case, as `parse` does.
    fn from_str(s: &str) -> (r: Result<Self, Self::Err>)
        ensures
            match FlashMode::named(uppercase(s@)) {
                Some(v) => r == Ok::<FlashMode, String>(v),
                None => r is Err && r->Err_0@ == FlashMode::invalid(uppercase(s@)),
            },
    {
        FlashMode::parse(s)
    }
}

impl FlashSize {
    /// How the flash size is written.
    pub open spec fn spec_name(self) -> Seq<char> {
        match self {
            FlashSize::Flash256Kb => "256KB"@,
            FlashSize::Flash512Kb => "512KB"@,
            FlashSize::Flash1Mb => "1MB"@,
            FlashSize::Flash2Mb => "2MB"@,
            FlashSize::Flash4Mb => "4MB"@,
            FlashSize::Flash8Mb => "8MB"@,
            FlashSize::Flash16Mb => "16MB"@,
            FlashSize::Flash32Mb => "32MB"@,
            FlashSize::Flash64Mb => "64MB"@,
            FlashSize::Flash128Mb => "128MB"@,
        }
    }

    /// How the flash size is written.
    pub fn name(self) -> (r: &'static str)
        ensures
            r@ == self.spec_name(),
    {
        match self {
            FlashSize::Flash256Kb => "256KB",
            FlashSize::Flash512Kb => "512KB",
            FlashSize::Flash1Mb => "1MB",
            FlashSize::Flash2Mb => "2MB",
            FlashSize::Flash4Mb => "4MB",
            FlashSize::Flash8Mb => "8MB",
            FlashSize::Flash16Mb => "16MB",
            FlashSize::Flash32Mb => "32MB",
            FlashSize::Flash64Mb => "64MB",
            FlashSize::Flash128Mb => "128MB",
        }
    }

    /// The name as an owned string.
    pub fn to_string(&self) -> (r: String)
        ensures
            r@ == self.spec_name(),
    {
        self.name().to_owned()
    }

    /// The names of all the values, in the order of their declaration.
    pub fn variants() -> (r: Vec<&'static str>)
        ensures
            r@.len() == 10,
            r@[0]@ == FlashSize::Flash256Kb.spec_name(),
            r@[1]@ == FlashSize::Flash512Kb.spec_name(),
            r@[2]@ == FlashSize::Flash1Mb.spec_name(),
            r@[3]@ == FlashSize::Flash2Mb.spec_name(),
            r@[4]@ == FlashSize::Flash4Mb.spec_name(),
            r@[5]@ == FlashSize::Flash8Mb.spec_name(),
            r@[6]@ == FlashSize::Flash16Mb.spec_name(),
            r@[7]@ == FlashSize::Flash32Mb.spec_name(),
            r@[8]@ == FlashSize::Flash64Mb.spec_name(),
            r@[9]@ == FlashSize::Flash128Mb.spec_name(),
    {
        let mut names: Vec<&'static str> = Vec::new();
        names.push("256KB");
        names.push("512KB");
        names.push("1MB");
        names.push("2MB");
        names.push("4MB");
        names.push("8MB");
        names.push("16MB");
        names.push("32MB");
        names.push("64MB");
        names.push("128MB");
        names
    }

    /// The flash size that has the name `name`, letter for letter.
    pub open spec fn named(name: Seq<char>) -> Option<FlashSize> {
        if name == "256KB"@ {
            Some(FlashSize::Flash256Kb)
        } else if name == "512KB"@ {
            Some(FlashSize::Flash512Kb)
        } else if name == "1MB"@ {
            Some(FlashSize::Flash1Mb)
        } else if name == "2MB"@ {
            Some(FlashSize::Flash2Mb)
        } else if name == "4MB"@ {
            Some(FlashSize::Flash4Mb)
        } else if name == "8MB"@ {
            Some(FlashSize::Flash8Mb)
        } else if name == "16MB"@ {
            Some(FlashSize::Flash16Mb)
        } else if name == "32MB"@ {
            Some(FlashSize::Flash32Mb)
        } else if name == "64MB"@ {
            Some(FlashSize::Flash64Mb)
        } else if name == "128MB"@ {
            Some(FlashSize::Flash128Mb)
        } else {
            None
        }
    }

    /// What is said of a name that is no flash size.
    pub open spec fn invalid(name: Seq<char>) -> Seq<char> {
        "invalid flash size '"@ + name + "'!"@
    }

    /// Reads a name that is already in upper case: the flash size of that
    /// name, or the complaint about it.
    pub fn from_name(name: &str) -> (r: Result<FlashSize, String>)
        ensures
            match FlashSize::named(name@) {
                Some(v) => r == Ok::<FlashSize, String>(v),
                None => r is Err && r->Err_0@ == FlashSize::invalid(name@),
            },
    {
        if same_text(name, "256KB") {
            Ok(FlashSize::Flash256Kb)
        } else if same_text(name, "512KB") {
            Ok(FlashSize::Flash512Kb)
        } else if same_text(name, "1MB") {
            Ok(FlashSize::Flash1Mb)
        } else if same_text(name, "2MB") {
            Ok(FlashSize::Flash2Mb)
        } else if same_text(name, "4MB") {
            Ok(FlashSize::Flash4Mb)
        } else if same_text(name, "8MB") {
            Ok(FlashSize::Flash8Mb)
        } else if same_text(name, "16MB") {
            Ok(FlashSize::Flash16Mb)
        } else if same_text(name, "32MB") {
            Ok(FlashSize::Flash32Mb)
        } else if same_text(name, "64MB") {
            Ok(FlashSize::Flash64Mb)
        } else if same_text(name, "128MB") {
            Ok(FlashSize::Flash128Mb)
        } else {
            Err(framed("invalid flash size '", name, "'!"))
        }
    }

    /// Reads what a user wrote, in whatever case: `s` is put in upper case
    /// and then read as a name.
    pub fn parse(s: &str) -> (r: Result<FlashSize, String>)
        ensures
            match FlashSize::named(uppercase(s@)) {
                Some(v) => r == Ok::<FlashSize, String>(v),
                None => r is Err && r->Err_0@ == FlashSize::invalid(uppercase(s@)),
            },
    {
        let folded = to_uppercase(s);
        FlashSize::from_name(folded.as_str())
    }
}

impl FromStr for FlashSize {
    type Err = String;

    /// Reads what a user wrote, in whatever case, as `parse` does.
    fn from_str(s: &str) -> (r: Result<Self, Self::Err>)
        ensures
            match FlashSize::named(uppercase(s@)) {
                Some(v) => r == Ok::<FlashSize, String>(v),
                None => r is Err && r->Err_0@ == FlashSize::invalid(uppercase(s@)),
            },
    {
        FlashSize::parse(s)
    }
}

} // verus!
