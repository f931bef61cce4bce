//! Node identities and operating systems.

use vstd::prelude::*;

use crate::text::str_eq;

verus! {

/// Stable, unique identifier of a node: the 128-bit value of its UUID.
#[derive(Debug, Clone, Copy, PartialEq, Eq, Structural, Hash, PartialOrd, Ord)]
pub struct NodeId(pub u128);

/// `true` when `x` carries the version (4) and variant (RFC 4122) bits of a
/// random UUID.
pub open spec fn is_random_uuid(x: u128) -> bool {
    &&& (x >> 76u128) & 0xfu128 == 4u128
    &&& (x >> 62u128) & 0x3u128 == 2u128
}

/// Calls `uuid::Uuid::new_v4` and hands back its 128-bit value.
/// Claimed: the value carries the version-4 and RFC 4122 variant bits that
/// `new_v4` sets on top of its random bytes; nothing else is claimed, the rest
/// is random.
#[verifier::external_body]
pub(crate) fn uuid_new_v4() -> (r: u128)
    ensures
        is_random_uuid(r),
{
    uuid::Uuid::new_v4().as_u128()
}

/// Lower-case hexadecimal digit of `d < 16`.
pub open spec fn hex_digit(d: int) -> char {
    if d < 10 {
        (48 + d) as char
    } else {
        (87 + d) as char
    }
}

/// The 32 lower-case hexadecimal digits of `x`, most significant first.
pub open spec fn hex32(x: u128) -> Seq<char> {
    Seq::new(32, |i: int| hex_digit(((x >> ((124 - 4 * i) as u128)) & 0xfu128) as int))
}

/// Value of a lower-case hexadecimal digit.
pub open spec fn hex_value(c: char) -> int {
    if '0' <= c <= '9' {
        c as int - 48
    } else {
        c as int - 87
    }
}

/// `s` is exactly 32 lower-case hexadecimal digits.
pub open spec fn is_hex32(s: Seq<char>) -> bool {
    s.len() == 32 && forall|i: int|
        0 <= i < 32 ==> ('0' <= #[trigger] s[i] <= '9' || 'a' <= s[i] <= 'f')
}

/// Value of the hexadecimal digits of `s`, most significant first.
pub open spec fn hex_number(s: Seq<char>) -> int
    decreases s.len(),
{
    if s.len() == 0 {
        0
    } else {
        hex_number(s.drop_last()) * 16 + hex_value(s.last())
    }
}

/// `s` is ASCII.
pub open spec fn all_ascii(s: Seq<char>) -> bool {
    forall|i: int| 0 <= i < s.len() ==> (#[trigger] s[i] as u32) < 128
}

/// What `uuid::Uuid::from_str` makes of a string (its 128-bit value when it
/// parses).
pub uninterp spec fn uuid_parse(s: Seq<char>) -> Option<u128>;

/// Calls `uuid::Uuid::simple` on the UUID of value `x` and formats it.
/// Claimed: the text is the 32 lower-case hexadecimal digits of `x`, most
/// significant first, which is how `uuid` writes the simple form.
#[verifier::external_body]
fn uuid_simple_text(x: u128) -> (s: String)
    ensures
        s@ == hex32(x),
{
    uuid::Uuid::from_u128(x).simple().to_string()
}

/// The hyphenated form of `x`: its 32 lower-case hexadecimal digits in
/// groups of 8, 4, 4, 4 and 12 separated by dashes.
pub open spec fn hyphenated(x: u128) -> Seq<char> {
    let h = hex32(x);
    h.subrange(0, 8) + seq!['-'] + h.subrange(8, 12) + seq!['-'] + h.subrange(12, 16) + seq!['-']
        + h.subrange(16, 20) + seq!['-'] + h.subrange(20, 32)
}

/// Formats the UUID of value `x` with its `Display` impl (`Uuid::to_string`).
/// Claimed: the text is the hyphenated form of `x` in lower case, which is
/// how `uuid` displays a UUID.
#[verifier::external_body]
pub(crate) fn uuid_hyphenated_text(x: u128) -> (s: String)
    ensures
        s@ == hyphenated(x),
{
    uuid::Uuid::from_u128(x).to_string()
}

/// Calls `uuid::Uuid::from_str`.
/// Claimed: the result is named by [`uuid_parse`]; besides, an ASCII string
/// whose length is none of 32, 36, 38 and 45 is refused (the only shapes the
/// parser accepts), a simple form of 32 lower-case hexadecimal digits
/// parses to its value, and so does the lower-case hyphenated form. Which
/// other shapes parse is not stated.
#[verifier::external_body]
fn uuid_from_str(s: &str) -> (r: Option<u128>)
    ensures
        r == uuid_parse(s@),
        all_ascii(s@) && s@.len() != 32 && s@.len() != 36 && s@.len() != 38 && s@.len() != 45
            ==> r is None,
        is_hex32(s@) ==> r == Some(hex_number(s@) as u128),
        forall|x: u128| #[trigger] hyphenated(x) == s@ ==> r == Some(x),
{
    s.parse::<uuid::Uuid>().ok().map(|u| u.as_u128())
}

impl NodeId {
    /// A fresh random identifier (a version-4 UUID).
    pub fn random() -> (id: NodeId)
        ensures
            is_random_uuid(id.0),
    {
        NodeId(uuid_new_v4())
    }

    /// The identifier as text: the simple form of its UUID (32 lower-case
    /// hexadecimal digits).
    pub fn to_string(&self) -> (s: String)
        ensures
            s@ == hex32(self.0),
    {
        uuid_simple_text(self.0)
    }

    /// Parses an identifier from the text of a UUID.
    pub fn parse(s: &str) -> (r: Option<NodeId>)
        ensures
            r == match uuid_parse(s@) {
                Some(x) => Some(NodeId(x)),
                None => None::<NodeId>,
            },
            all_ascii(s@) && s@.len() != 32 && s@.len() != 36 && s@.len() != 38 && s@.len() != 45
                ==> r is None,
            forall|x: u128| #[trigger] hyphenated(x) == s@ ==> r == Some(NodeId(x)),
    {
        match uuid_from_str(s) {
            Some(x) => Some(NodeId(x)),
            None => None,
        }
    }
}

/// Operating system of a node.
#[derive(Debug, Clone, Copy, PartialEq, Eq, Structural)]
pub enum Os {
    MacOs,
    Windows,
    Linux,
    Other,
}

impl Os {
    /// The system named `name` as Rust names target systems (`std::env::consts::OS`).
    pub fn from_target_os(name: &str) -> (os: Os)
        ensures
            name@ == "macos"@ ==> os == Os::MacOs,
            name@ == "windows"@ ==> os == Os::Windows,
            name@ == "linux"@ ==> os == Os::Linux,
            name@ != "macos"@ && name@ != "windows"@ && name@ != "linux"@ ==> os == Os::Other,
    {
        proof {
            reveal_strlit("macos");
            reveal_strlit("windows");
            reveal_strlit("linux");
            assert("macos"@.len() == 5 && "windows"@.len() == 7 && "linux"@.len() == 5);
            assert("macos"@[0] == 'm' && "linux"@[0] == 'l');
            assert("macos"@ != "windows"@ && "macos"@ != "linux"@ && "windows"@ != "linux"@);
        }
        if str_eq(name, "macos") {
            Os::MacOs
        } else if str_eq(name, "windows") {
            Os::Windows
        } else if str_eq(name, "linux") {
            Os::Linux
        } else {
            Os::Other
        }
    }
}

} // verus!
