//! Target platforms and architectures.
use vstd::prelude::*;

use crate::text::{chars_eq, chars_of, push_chars, push_str};

verus! {

#[derive(Clone, Copy, Debug, PartialEq, Eq, Structural)]
pub enum Architecture {
    X86_64,
    Arm64,
}

#[derive(Clone, Copy, Debug, PartialEq, Eq, Structural)]
pub enum Platform {
    Linux,
    Android,
    Ios,
    Unknown,
}

/// What a scan targets: architecture, platform and instruction length limits.
#[derive(Clone, Copy, Debug, PartialEq, Eq, Structural)]
pub struct TargetSpec {
    pub architecture: Architecture,
    pub platform: Platform,
    pub max_instruction_len: usize,
    pub fixed_instruction_len: Option<usize>,
}

pub open spec fn spec_arch_name(a: Architecture) -> Seq<char> {
    match a {
        Architecture::X86_64 => "x86_64"@,
        Architecture::Arm64 => "arm64"@,
    }
}

pub open spec fn spec_platform_name(p: Platform) -> Seq<char> {
    match p {
        Platform::Linux => "linux"@,
        Platform::Android => "android"@,
        Platform::Ios => "ios"@,
        Platform::Unknown => "unknown"@,
    }
}

pub open spec fn spec_linux_x86_64() -> TargetSpec {
    TargetSpec {
        architecture: Architecture::X86_64,
        platform: Platform::Linux,
        max_instruction_len: 15,
        fixed_instruction_len: None,
    }
}

pub open spec fn spec_android_arm64() -> TargetSpec {
    TargetSpec {
        architecture: Architecture::Arm64,
        platform: Platform::Android,
        max_instruction_len: 4,
        fixed_instruction_len: Some(4),
    }
}

pub open spec fn spec_ios_arm64() -> TargetSpec {
    TargetSpec {
        architecture: Architecture::Arm64,
        platform: Platform::Ios,
        max_instruction_len: 4,
        fixed_instruction_len: Some(4),
    }
}

/// The target of a host with the given architecture and platform: ARM64
/// hosts use fixed 4-byte instructions, others up to 15 bytes.
pub open spec fn spec_for_host(a: Architecture, p: Platform) -> TargetSpec {
    TargetSpec {
        architecture: a,
        platform: p,
        max_instruction_len: if a == Architecture::Arm64 {
            4
        } else {
            15
        },
        fixed_instruction_len: if a == Architecture::Arm64 {
            Some(4)
        } else {
            None
        },
    }
}

pub open spec fn spec_target_name(t: TargetSpec) -> Seq<char> {
    match (t.platform, t.architecture) {
        (Platform::Linux, Architecture::X86_64) => "linux-x86_64"@,
        (Platform::Android, Architecture::Arm64) => "android-arm64"@,
        (Platform::Ios, Architecture::Arm64) => "ios-arm64"@,
        (_, Architecture::X86_64) => "x86_64"@,
        (_, Architecture::Arm64) => "arm64"@,
    }
}

/// The target a name denotes; `"host"` denotes `host`.
pub open spec fn spec_parse_target(value: Seq<char>, host: TargetSpec) -> Result<
    TargetSpec,
    Seq<char>,
> {
    if value == "linux-x86_64"@ || value == "x86_64-linux"@ {
        Ok(spec_linux_x86_64())
    } else if value == "android-arm64"@ || value == "android-aarch64"@ {
        Ok(spec_android_arm64())
    } else if value == "ios-arm64"@ || value == "ios-aarch64"@ {
        Ok(spec_ios_arm64())
    } else if value == "host"@ {
        Ok(host)
    } else {
        Err("unknown target '"@ + value + "'"@)
    }
}

impl Architecture {
    /// The architecture's display name.
    pub fn as_str(self) -> (r: &'static str)
        ensures
            r@ == spec_arch_name(self),
    {
        match self {
            Architecture::X86_64 => "x86_64",
            Architecture::Arm64 => "arm64",
        }
    }
}

impl Platform {
    /// The platform's display name.
    pub fn as_str(self) -> (r: &'static str)
        ensures
            r@ == spec_platform_name(self),
    {
        match self {
            Platform::Linux => "linux",
            Platform::Android => "android",
            Platform::Ios => "ios",
            Platform::Unknown => "unknown",
        }
    }
}

impl TargetSpec {
    /// The target of a host with the given architecture and platform.
    pub fn for_host(architecture: Architecture, platform: Platform) -> (r: Self)
        ensures
            r == spec_for_host(architecture, platform),
    {
        let arm = match architecture {
            Architecture::Arm64 => true,
            Architecture::X86_64 => false,
        };
        Self {
            architecture,
            platform,
            max_instruction_len: if arm {
                4
            } else {
                15
            },
            fixed_instruction_len: if arm {
                Some(4)
            } else {
                None
            },
        }
    }

    pub fn linux_x86_64() -> (r: Self)
        ensures
            r == spec_linux_x86_64(),
    {
        Self {
            architecture: Architecture::X86_64,
            platform: Platform::Linux,
            max_instruction_len: 15,
            fixed_instruction_len: None,
        }
    }

    pub fn android_arm64() -> (r: Self)
        ensures
            r == spec_android_arm64(),
    {
        Self {
            architecture: Architecture::Arm64,
            platform: Platform::Android,
            max_instruction_len: 4,
            fixed_instruction_len: Some(4),
        }
    }

    pub fn ios_arm64() -> (r: Self)
        ensures
            r == spec_ios_arm64(),
    {
        Self {
            architecture: Architecture::Arm64,
            platform: Platform::Ios,
            max_instruction_len: 4,
            fixed_instruction_len: Some(4),
        }
    }

    /// The target's name.
    pub fn name(self) -> (r: &'static str)
        ensures
            r@ == spec_target_name(self),
    {
        match (self.platform, self.architecture) {
            (Platform::Linux, Architecture::X86_64) => "linux-x86_64",
            (Platform::Android, Architecture::Arm64) => "android-arm64",
            (Platform::Ios, Architecture::Arm64) => "ios-arm64",
            (_, Architecture::X86_64) => "x86_64",
            (_, Architecture::Arm64) => "arm64",
        }
    }

    pub fn is_x86(self) -> (r: bool)
        ensures
            r == (self.architecture == Architecture::X86_64),
    {
        match self.architecture {
            Architecture::X86_64 => true,
            Architecture::Arm64 => false,
        }
    }

    /// The target a name denotes, where `"host"` denotes `host`.
    pub fn parse_name(value: &str, host: TargetSpec) -> (r: Result<Self, String>)
        ensures
            match r {
                Ok(t) => spec_parse_target(value@, host) == Ok::<TargetSpec, Seq<char>>(t),
                Err(e) => spec_parse_target(value@, host) == Err::<TargetSpec, Seq<char>>(e@),
            },
    {
        let v = chars_of(value);
        if chars_eq(v.as_slice(), "linux-x86_64") || chars_eq(v.as_slice(), "x86_64-linux") {
            Ok(Self::linux_x86_64())
        } else if chars_eq(v.as_slice(), "android-arm64") || chars_eq(
            v.as_slice(),
            "android-aarch64",
        ) {
            Ok(Self::android_arm64())
        } else if chars_eq(v.as_slice(), "ios-arm64") || chars_eq(v.as_slice(), "ios-aarch64") {
            Ok(Self::ios_arm64())
        } else if chars_eq(v.as_slice(), "host") {
            Ok(host)
        } else {
            let mut e = String::new();
            push_str(&mut e, "unknown target '");
            push_chars(&mut e, v.as_slice());
            push_str(&mut e, "'");
            Err(e)
        }
    }
}

} // verus!
