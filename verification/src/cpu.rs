//! What the logs record of the processor: `/proc/cpuinfo` fields and the
//! CPUID feature bits.
use vstd::prelude::*;

use crate::text;
use crate::text::{chars_eq, chars_of, lines_of, split_once_of, string_of, trim_chars};

verus! {

/// The `/proc/cpuinfo` fields the logs keep, and its first lines.
#[derive(Clone, Debug, PartialEq, Eq)]
pub struct CpuMetadata {
    pub processor: Option<String>,
    pub vendor_id: Option<String>,
    pub cpu_family: Option<String>,
    pub model: Option<String>,
    pub model_name: Option<String>,
    pub stepping: Option<String>,
    pub microcode: Option<String>,
    pub architecture_bits: Option<u32>,
    pub raw_lines: Vec<String>,
}

/// `cur`, replaced by the value of `line` when its trimmed key is `key`.
pub open spec fn key_update(cur: Option<Seq<char>>, line: Seq<char>, key: Seq<char>) -> Option<
    Seq<char>,
> {
    match text::key_value(line) {
        Some((k, v)) => if k == key {
            Some(v)
        } else {
            cur
        },
        None => cur,
    }
}

/// The value of the last of `ls` whose key is `key`.
pub open spec fn last_value(ls: Seq<Seq<char>>, key: Seq<char>) -> Option<Seq<char>>
    decreases ls.len(),
{
    if ls.len() == 0 {
        None
    } else {
        key_update(last_value(ls.drop_last(), key), ls.last(), key)
    }
}

/// The seven keyed fields of `m` after `line`, the other fields unchanged.
pub open spec fn cpu_line_applied(old: CpuMetadata, new: CpuMetadata, line: Seq<char>) -> bool {
    &&& text::opt_view(new.processor) == key_update(text::opt_view(old.processor), line, "processor"@)
    &&& text::opt_view(new.vendor_id) == key_update(text::opt_view(old.vendor_id), line, "vendor_id"@)
    &&& text::opt_view(new.cpu_family) == key_update(
        text::opt_view(old.cpu_family),
        line,
        "cpu family"@,
    )
    &&& text::opt_view(new.model) == key_update(text::opt_view(old.model), line, "model"@)
    &&& text::opt_view(new.model_name) == key_update(
        text::opt_view(old.model_name),
        line,
        "model name"@,
    )
    &&& text::opt_view(new.stepping) == key_update(text::opt_view(old.stepping), line, "stepping"@)
    &&& text::opt_view(new.microcode) == key_update(
        text::opt_view(old.microcode),
        line,
        "microcode"@,
    )
    &&& new.architecture_bits == old.architecture_bits
    &&& new.raw_lines@ == old.raw_lines@
}

/// The keyed fields of `m` are the last values among `ls`.
pub open spec fn cpu_fields_from(m: CpuMetadata, ls: Seq<Seq<char>>) -> bool {
    &&& text::opt_view(m.processor) == last_value(ls, "processor"@)
    &&& text::opt_view(m.vendor_id) == last_value(ls, "vendor_id"@)
    &&& text::opt_view(m.cpu_family) == last_value(ls, "cpu family"@)
    &&& text::opt_view(m.model) == last_value(ls, "model"@)
    &&& text::opt_view(m.model_name) == last_value(ls, "model name"@)
    &&& text::opt_view(m.stepping) == last_value(ls, "stepping"@)
    &&& text::opt_view(m.microcode) == last_value(ls, "microcode"@)
}

/// Nothing known.
pub open spec fn cpu_empty(m: CpuMetadata) -> bool {
    &&& cpu_fields_empty(m)
    &&& m.raw_lines@.len() == 0
}

/// No field known, whatever the raw lines.
pub open spec fn cpu_fields_empty(m: CpuMetadata) -> bool {
    &&& m.processor is None
    &&& m.vendor_id is None
    &&& m.cpu_family is None
    &&& m.model is None
    &&& m.model_name is None
    &&& m.stepping is None
    &&& m.microcode is None
    &&& m.architecture_bits is None
}

impl Default for CpuMetadata {
    fn default() -> (r: Self)
        ensures
            cpu_empty(r),
    {
        CpuMetadata {
            processor: None,
            vendor_id: None,
            cpu_family: None,
            model: None,
            model_name: None,
            stepping: None,
            microcode: None,
            architecture_bits: None,
            raw_lines: Vec::new(),
        }
    }
}

impl CpuMetadata {
    /// Records the value of `line` under its key, when the key is one of the
    /// seven kept.
    pub fn apply_line(&mut self, line: &[char])
        ensures
            cpu_line_applied(*old(self), *final(self), line@),
    {
        let (key, value) = match split_once_of(line, ':') {
            Some((k, v)) => (trim_chars(k.as_slice()), trim_chars(v.as_slice())),
            None => return,
        };
        let k = key.as_slice();
        let v = string_of(value.as_slice());
        if chars_eq(k, "processor") {
            self.processor = Some(v);
        } else if chars_eq(k, "vendor_id") {
            self.vendor_id = Some(v);
        } else if chars_eq(k, "cpu family") {
            self.cpu_family = Some(v);
        } else if chars_eq(k, "model") {
            self.model = Some(v);
        } else if chars_eq(k, "model name") {
            self.model_name = Some(v);
        } else if chars_eq(k, "stepping") {
            self.stepping = Some(v);
        } else if chars_eq(k, "microcode") {
            self.microcode = Some(v);
        }
        proof {
            lemma_keys_distinct();
        }
    }

    /// The metadata of a `/proc/cpuinfo` text: its first seven lines, and for
    /// each kept key the value of its last line.
    pub fn from_cpuinfo_str(content: &str) -> (r: Self)
        ensures
            ({
                let ls = text::lines(content@);
                &&& text::views(r.raw_lines@) == ls.take(
                    if ls.len() < 7 {
                        ls.len() as int
                    } else {
                        7
                    },
                )
                &&& cpu_fields_from(r, ls)
                &&& r.architecture_bits is None
            }),
    {
        let chars = chars_of(content);
        let ls = lines_of(chars.as_slice());
        let ghost lv = ls.deep_view();
        let mut m = CpuMetadata::default();
        let n: usize = if ls.len() < 7 {
            ls.len()
        } else {
            7
        };
        let mut i: usize = 0;
        while i < n
            invariant
                i <= n <= ls.len(),
                lv == ls.deep_view(),
                cpu_fields_empty(m),
                m.raw_lines@.len() == i,
                text::views(m.raw_lines@) == lv.take(i as int),
            decreases n - i,
        {
            assert(ls@[i as int]@ == lv[i as int]);
            m.raw_lines.push(string_of(ls[i].as_slice()));
            assert(text::views(m.raw_lines@) =~= lv.take(i + 1));
            i = i + 1;
        }
        let ghost raw = m.raw_lines@;
        let mut j: usize = 0;
        assert(lv.take(0) =~= Seq::<Seq<char>>::empty());
        while j < ls.len()
            invariant
                j <= ls.len(),
                lv == ls.deep_view(),
                m.raw_lines@ == raw,
                m.architecture_bits is None,
                cpu_fields_from(m, lv.take(j as int)),
            decreases ls.len() - j,
        {
            assert(ls@[j as int]@ == lv[j as int]);
            m.apply_line(ls[j].as_slice());
            assert(lv.take(j + 1).drop_last() =~= lv.take(j as int));
            j = j + 1;
        }
        assert(lv.take(ls.len() as int) =~= lv);
        m
    }
}

/// The seven keys differ.
proof fn lemma_keys_distinct()
    ensures
        "processor"@ != "vendor_id"@,
        "processor"@ != "cpu family"@,
        "processor"@ != "model"@,
        "processor"@ != "model name"@,
        "processor"@ != "stepping"@,
        "processor"@ != "microcode"@,
        "vendor_id"@ != "cpu family"@,
        "vendor_id"@ != "model"@,
        "vendor_id"@ != "model name"@,
        "vendor_id"@ != "stepping"@,
        "vendor_id"@ != "microcode"@,
        "cpu family"@ != "model"@,
        "cpu family"@ != "model name"@,
        "cpu family"@ != "stepping"@,
        "cpu family"@ != "microcode"@,
        "model"@ != "model name"@,
        "model"@ != "stepping"@,
        "model"@ != "microcode"@,
        "model name"@ != "stepping"@,
        "model name"@ != "microcode"@,
        "stepping"@ != "microcode"@,
{
    reveal_strlit("processor");
    reveal_strlit("vendor_id");
    reveal_strlit("cpu family");
    reveal_strlit("model");
    reveal_strlit("model name");
    reveal_strlit("stepping");
    reveal_strlit("microcode");
    assert("processor"@[0] != "vendor_id"@[0]);
    assert("processor"@[0] != "cpu family"@[0]);
    assert("processor"@[0] != "model"@[0]);
    assert("processor"@[0] != "model name"@[0]);
    assert("processor"@[0] != "stepping"@[0]);
    assert("processor"@[0] != "microcode"@[0]);
    assert("vendor_id"@[0] != "cpu family"@[0]);
    assert("vendor_id"@[0] != "model"@[0]);
    assert("vendor_id"@[0] != "model name"@[0]);
    assert("vendor_id"@[0] != "stepping"@[0]);
    assert("vendor_id"@[0] != "microcode"@[0]);
    assert("cpu family"@[0] != "model"@[0]);
    assert("cpu family"@[0] != "model name"@[0]);
    assert("cpu family"@[0] != "stepping"@[0]);
    assert("cpu family"@[0] != "microcode"@[0]);
    assert("model"@.len() != "model name"@.len());
    assert("model"@[0] != "stepping"@[0]);
    assert("model"@[1] != "microcode"@[1]);
    assert("model name"@[0] != "stepping"@[0]);
    assert("model name"@[1] != "microcode"@[1]);
    assert("stepping"@[0] != "microcode"@[0]);
}

/// The four registers CPUID returns for a leaf.
#[derive(Clone, Copy, Debug, PartialEq, Eq, Structural)]
pub struct CpuidRegisters {
    pub eax: u32,
    pub ebx: u32,
    pub ecx: u32,
    pub edx: u32,
}

/// The features CPUID reports.
#[derive(Clone, Debug)]
pub struct CpuCapabilities {
    pub vendor: String,
    pub max_basic_leaf: u32,
    pub max_extended_leaf: u32,
    pub has_tsc: bool,
    pub has_msr: bool,
    pub has_apic: bool,
    pub has_syscall_sysret: bool,
    pub has_nx: bool,
    pub has_1gib_pages: bool,
    pub has_rdtscp: bool,
    pub has_long_mode: bool,
}

/// Little-endian bytes of `x`.
pub open spec fn le4(x: u32) -> Seq<u8> {
    seq![
        (x % 0x100) as u8,
        ((x / 0x100) % 0x100) as u8,
        ((x / 0x1_0000) % 0x100) as u8,
        (x / 0x100_0000) as u8,
    ]
}

/// The vendor bytes: EBX, EDX, ECX of leaf 0, each little-endian.
pub open spec fn vendor_bytes(basic: CpuidRegisters) -> Seq<u8> {
    le4(basic.ebx) + le4(basic.edx) + le4(basic.ecx)
}

pub open spec fn bit(x: u32, n: u32) -> bool {
    x & (1u32 << n) != 0
}

/// Each byte as the character of the same number.
pub open spec fn ascii_chars(b: Seq<u8>) -> Seq<char> {
    b.map_values(|x: u8| x as char)
}

pub open spec fn all_ascii(b: Seq<u8>) -> bool {
    forall|i: int| 0 <= i < b.len() ==> b[i] < 0x80
}

/// The characters that `bytes` encode in UTF-8, or `None` when they are not
/// valid UTF-8.
pub uninterp spec fn utf8_decoded(bytes: Seq<u8>) -> Option<Seq<char>>;

/// `String::from_utf8`: the string the bytes encode, `None` when they are not
/// valid UTF-8 (`utf8_decoded`); ASCII bytes encode the characters of the
/// same numbers.
#[verifier::external_body]
fn utf8_string(bytes: Vec<u8>) -> (r: Option<String>)
    ensures
        text::opt_view(r) == utf8_decoded(bytes@),
        all_ascii(bytes@) ==> r is Some && r->0@ == ascii_chars(bytes@),
{
    String::from_utf8(bytes).ok()
}

fn le_bytes_of(x: u32, out: &mut Vec<u8>)
    ensures
        final(out)@ == old(out)@ + le4(x),
{
    out.push((x & 0xff) as u8);
    out.push(((x >> 8) & 0xff) as u8);
    out.push(((x >> 16) & 0xff) as u8);
    out.push((x >> 24) as u8);
    assert((x & 0xff) == x % 0x100) by (bit_vector);
    assert(((x >> 8) & 0xff) == (x / 0x100) % 0x100) by (bit_vector);
    assert(((x >> 16) & 0xff) == (x / 0x1_0000) % 0x100) by (bit_vector);
    assert((x >> 24) == x / 0x100_0000) by (bit_vector);
    assert(out@ =~= old(out)@ + le4(x));
}

/// The leaf to read the extended features from: `0x8000_0001` when the
/// processor has it, else leaf 0.
pub fn extended_feature_leaf(max_extended_leaf: u32) -> (r: u32)
    ensures
        r == (if max_extended_leaf >= 0x8000_0001 {
            0x8000_0001u32
        } else {
            0u32
        }),
{
    if max_extended_leaf >= 0x8000_0001 {
        0x8000_0001
    } else {
        0
    }
}

/// `c` holds the feature bits of the CPUID leaves: the largest basic and
/// extended leaves, then the leaf 1 and extended feature flags.
pub open spec fn features_of(
    c: CpuCapabilities,
    basic: CpuidRegisters,
    leaf1: CpuidRegisters,
    extended: CpuidRegisters,
    ext_features: CpuidRegisters,
) -> bool {
    &&& c.max_basic_leaf == basic.eax
    &&& c.max_extended_leaf == extended.eax
    &&& c.has_tsc == bit(leaf1.edx, 4)
    &&& c.has_msr == bit(leaf1.edx, 5)
    &&& c.has_apic == bit(leaf1.edx, 9)
    &&& c.has_syscall_sysret == bit(ext_features.edx, 11)
    &&& c.has_nx == bit(ext_features.edx, 20)
    &&& c.has_1gib_pages == bit(ext_features.edx, 26)
    &&& c.has_rdtscp == bit(ext_features.edx, 27)
    &&& c.has_long_mode == bit(ext_features.edx, 29)
}

impl CpuCapabilities {
    /// The capabilities read from CPUID leaf 0 (`basic`), leaf 1, leaf
    /// `0x8000_0000` (`extended`) and the leaf `extended_feature_leaf` names
    /// (`ext_features`); `None` when the vendor bytes are not UTF-8.
    pub fn from_cpuid(
        basic: CpuidRegisters,
        leaf1: CpuidRegisters,
        extended: CpuidRegisters,
        ext_features: CpuidRegisters,
    ) -> (r: Option<Self>)
        ensures
            r is Some <==> utf8_decoded(vendor_bytes(basic)) is Some,
            all_ascii(vendor_bytes(basic)) ==> r is Some,
            r matches Some(c) ==> {
                &&& c.vendor@ == utf8_decoded(vendor_bytes(basic))->0
                &&& all_ascii(vendor_bytes(basic)) ==> c.vendor@ == ascii_chars(vendor_bytes(basic))
                &&& features_of(c, basic, leaf1, extended, ext_features)
            },
    {
        let mut bytes: Vec<u8> = Vec::new();
        le_bytes_of(basic.ebx, &mut bytes);
        le_bytes_of(basic.edx, &mut bytes);
        le_bytes_of(basic.ecx, &mut bytes);
        assert(bytes@ =~= vendor_bytes(basic));
        let vendor = utf8_string(bytes);
        Self::with_vendor(vendor, basic, leaf1, extended, ext_features)
    }

    /// The capabilities of the CPUID leaves with the vendor string already
    /// decoded; `None` when it could not be.
    pub fn with_vendor(
        vendor: Option<String>,
        basic: CpuidRegisters,
        leaf1: CpuidRegisters,
        extended: CpuidRegisters,
        ext_features: CpuidRegisters,
    ) -> (r: Option<Self>)
        ensures
            r is Some <==> vendor is Some,
            r matches Some(c) ==> {
                &&& c.vendor@ == vendor->0@
                &&& features_of(c, basic, leaf1, extended, ext_features)
            },
    {
        let vendor = match vendor {
            Some(v) => v,
            None => return None,
        };
        Some(CpuCapabilities {
            vendor,
            max_basic_leaf: basic.eax,
            max_extended_leaf: extended.eax,
            has_tsc: leaf1.edx & (1u32 << 4u32) != 0,
            has_msr: leaf1.edx & (1u32 << 5u32) != 0,
            has_apic: leaf1.edx & (1u32 << 9u32) != 0,
            has_syscall_sysret: ext_features.edx & (1u32 << 11u32) != 0,
            has_nx: ext_features.edx & (1u32 << 20u32) != 0,
            has_1gib_pages: ext_features.edx & (1u32 << 26u32) != 0,
            has_rdtscp: ext_features.edx & (1u32 << 27u32) != 0,
            has_long_mode: ext_features.edx & (1u32 << 29u32) != 0,
        })
    }
}

} // verus!
