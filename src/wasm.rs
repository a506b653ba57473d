//! The editor API version that a compiled extension module declares in its
//! `zed:api-version` custom section: three big-endian 16-bit numbers.

use crate::text::{concat, str_equal};
use vstd::prelude::*;

verus! {

/// The custom sections of the module `module`, in order, as far as it
/// parses, with their names and contents; and whether parsing stopped on an
/// error.
pub uninterp spec fn wasm_custom_sections(module: Seq<u8>) -> (Seq<(Seq<char>, Seq<u8>)>, bool);

/// Relies on wasmparser's `Parser::parse_all` and its `CustomSection`
/// payload's `name` and `data`.
#[verifier::external_body]
fn custom_sections(module: &[u8]) -> (r: (Vec<(String, Vec<u8>)>, bool))
    ensures
        (r.0@.map_values(|p: (String, Vec<u8>)| section_view(p)), r.1) == wasm_custom_sections(
            module@,
        ),
{
    let mut sections = Vec::new();
    for part in wasmparser::Parser::new(0).parse_all(module) {
        match part {
            Ok(wasmparser::Payload::CustomSection(s)) => {
                sections.push((s.name().to_string(), s.data().to_vec()))
            },
            Ok(_) => {},
            Err(_) => return (sections, true),
        }
    }
    (sections, false)
}

pub open spec fn section_view(p: (String, Vec<u8>)) -> (Seq<char>, Seq<u8>) {
    (p.0@, p.1@)
}

/// Why no version could be read.
#[derive(Debug, Clone, Copy, PartialEq, Eq, Structural)]
pub enum WasmError {
    /// The module did not parse before a version section was found.
    Malformed,
    /// The module has no version section.
    MissingVersion,
    /// The version section holds fewer than six bytes.
    ShortVersion,
}

/// The name of the section that holds the version.
pub open spec fn version_section_name() -> Seq<char> {
    "zed:api-version"@
}

/// The position of the first section named `name`, or the count of sections.
pub open spec fn first_named(sections: Seq<(Seq<char>, Seq<u8>)>, name: Seq<char>) -> int
    decreases sections.len(),
{
    if sections.len() == 0 {
        0
    } else if sections[0].0 == name {
        0
    } else {
        1 + first_named(sections.drop_first(), name)
    }
}

pub open spec fn digit_char(d: nat) -> char {
    if d == 0 { '0' }
    else if d == 1 { '1' }
    else if d == 2 { '2' }
    else if d == 3 { '3' }
    else if d == 4 { '4' }
    else if d == 5 { '5' }
    else if d == 6 { '6' }
    else if d == 7 { '7' }
    else if d == 8 { '8' }
    else { '9' }
}

/// The decimal digits of `n`, without leading zeros.
pub open spec fn decimal(n: nat) -> Seq<char>
    decreases n,
{
    if n < 10 {
        seq![digit_char(n)]
    } else {
        decimal(n / 10).push(digit_char(n % 10))
    }
}

/// The big-endian number of bytes `hi` and `lo`.
pub open spec fn be16(hi: u8, lo: u8) -> nat {
    (hi as nat) * 256 + lo as nat
}

/// `major.minor.patch` from the first six bytes of `data`.
pub open spec fn version_text(data: Seq<u8>) -> Seq<char> {
    decimal(be16(data[0], data[1])) + "."@ + decimal(be16(data[2], data[3])) + "."@ + decimal(
        be16(data[4], data[5]),
    )
}

/// The version that a module with custom sections `sections` declares,
/// `malformed` telling whether parsing stopped on an error.
pub open spec fn api_version_spec(sections: Seq<(Seq<char>, Seq<u8>)>, malformed: bool) -> Result<
    Seq<char>,
    WasmError,
> {
    let i = first_named(sections, version_section_name());
    if i < sections.len() {
        if sections[i].1.len() >= 6 {
            Ok(version_text(sections[i].1))
        } else {
            Err(WasmError::ShortVersion)
        }
    } else if malformed {
        Err(WasmError::Malformed)
    } else {
        Err(WasmError::MissingVersion)
    }
}

fn digit_string(d: u16) -> (r: String)
    requires
        d < 10,
    ensures
        r@ == seq![digit_char(d as nat)],
{
    proof {
        reveal_strlit("0");
        reveal_strlit("1");
        reveal_strlit("2");
        reveal_strlit("3");
        reveal_strlit("4");
        reveal_strlit("5");
        reveal_strlit("6");
        reveal_strlit("7");
        reveal_strlit("8");
        reveal_strlit("9");
    }
    let s = if d == 0 { "0" }
    else if d == 1 { "1" }
    else if d == 2 { "2" }
    else if d == 3 { "3" }
    else if d == 4 { "4" }
    else if d == 5 { "5" }
    else if d == 6 { "6" }
    else if d == 7 { "7" }
    else if d == 8 { "8" }
    else { "9" };
    let r = String::from_str(s);
    assert(r@ =~= seq![digit_char(d as nat)]);
    r
}

/// The decimal text of `n`.
pub fn decimal_string(n: u16) -> (r: String)
    ensures
        r@ == decimal(n as nat),
    decreases n,
{
    if n < 10 {
        digit_string(n)
    } else {
        let head = decimal_string(n / 10);
        let last = digit_string(n % 10);
        let r = concat(head.as_str(), last.as_str());
        assert(r@ =~= decimal(n as nat));
        r
    }
}

/// Reads the version from a module's custom sections (see
/// `api_version_spec`).
pub fn api_version_from_sections(sections: &Vec<(String, Vec<u8>)>, malformed: bool) -> (r: Result<
    String,
    WasmError,
>)
    ensures
        match api_version_spec(sections@.map_values(|p: (String, Vec<u8>)| section_view(p)), malformed) {
            Ok(v) => r is Ok && r->Ok_0@ == v,
            Err(e) => r == Err::<String, WasmError>(e),
        },
{
    proof {
        reveal_strlit("zed:api-version");
        reveal_strlit(".");
    }
    let ghost sv = sections@.map_values(|p: (String, Vec<u8>)| section_view(p));
    let mut i: usize = 0;
    assert(sv.subrange(0, sv.len() as int) =~= sv);
    while i < sections.len()
        invariant
            i <= sections@.len(),
            sv == sections@.map_values(|p: (String, Vec<u8>)| section_view(p)),
            first_named(sv, version_section_name()) == i + first_named(
                sv.subrange(i as int, sv.len() as int),
                version_section_name(),
            ),
        decreases sections.len() - i,
    {
        let data = &sections[i].1;
        if str_equal(sections[i].0.as_str(), "zed:api-version") {
            assert(sv[i as int] == section_view(sections@[i as int]));
            if data.len() < 6 {
                return Err(WasmError::ShortVersion);
            }
            let major = (data[0] as u16) * 256 + data[1] as u16;
            let minor = (data[2] as u16) * 256 + data[3] as u16;
            let patch = (data[4] as u16) * 256 + data[5] as u16;
            let s = concat(decimal_string(major).as_str(), ".");
            let s = concat(s.as_str(), decimal_string(minor).as_str());
            let s = concat(s.as_str(), ".");
            let s = concat(s.as_str(), decimal_string(patch).as_str());
            return Ok(s);
        }
        assert(sv.subrange(i as int, sv.len() as int).drop_first() =~= sv.subrange(
            i + 1,
            sv.len() as int,
        ));
        i = i + 1;
    }
    if malformed {
        Err(WasmError::Malformed)
    } else {
        Err(WasmError::MissingVersion)
    }
}

/// The editor API version that the compiled module `module` declares (see
/// `api_version_spec` over `wasm_custom_sections`).
pub fn extract_zed_api_version(module: &Vec<u8>) -> (r: Result<String, WasmError>)
    ensures
        ({
            let (sections, malformed) = wasm_custom_sections(module@);
            match api_version_spec(sections, malformed) {
                Ok(v) => r is Ok && r->Ok_0@ == v,
                Err(e) => r == Err::<String, WasmError>(e),
            }
        }),
{
    let (sections, malformed) = custom_sections(module.as_slice());
    api_version_from_sections(&sections, malformed)
}

} // verus!
