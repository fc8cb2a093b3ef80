use vstd::prelude::*;
use crate::error::{Error, Result};
use crate::text::{ascii_chars, is_digit, ascii_digit};

verus! {

/// Android MPKG container version identified by the 8-byte `PKGM####` magic.
/// Known versions have named cases; any other `PKGM` followed by four ASCII
/// digits is read through `OtherPkgm`. Only PKGM0018 and PKGM0020 are written.
#[derive(Debug, Clone, Copy, PartialEq, Eq)]
pub enum ContainerVersion {
    Pkgm0014,
    Pkgm0018,
    Pkgm0020,
    OtherPkgm { digits: [u8; 4] },
}

pub open spec fn pkgm_prefix() -> Seq<u8> {
    seq![80u8, 75u8, 71u8, 77u8]
}

/// Four digit bytes of a version.
pub open spec fn version_digits(v: ContainerVersion) -> Seq<u8> {
    match v {
        ContainerVersion::Pkgm0014 => seq![48u8, 48u8, 49u8, 52u8],
        ContainerVersion::Pkgm0018 => seq![48u8, 48u8, 49u8, 56u8],
        ContainerVersion::Pkgm0020 => seq![48u8, 48u8, 50u8, 48u8],
        ContainerVersion::OtherPkgm { digits } => digits@,
    }
}

/// The 8-byte magic of a version.
pub open spec fn magic_bytes(v: ContainerVersion) -> Seq<u8> {
    pkgm_prefix() + version_digits(v)
}

/// Versions the writer may emit.
pub open spec fn spec_is_writable(v: ContainerVersion) -> bool {
    v is Pkgm0018 || v is Pkgm0020
}

/// Version named by an 8-byte magic, or `None` when it is not `PKGM####`.
pub open spec fn spec_from_magic(m: Seq<u8>) -> Option<ContainerVersion> {
    if m.len() != 8 || m.subrange(0, 4) != pkgm_prefix() {
        None
    } else if !(is_digit(m[4]) && is_digit(m[5]) && is_digit(m[6]) && is_digit(m[7])) {
        None
    } else {
        let d = m.subrange(4, 8);
        if d == version_digits(ContainerVersion::Pkgm0014) {
            Some(ContainerVersion::Pkgm0014)
        } else if d == version_digits(ContainerVersion::Pkgm0018) {
            Some(ContainerVersion::Pkgm0018)
        } else if d == version_digits(ContainerVersion::Pkgm0020) {
            Some(ContainerVersion::Pkgm0020)
        } else {
            Some(ContainerVersion::OtherPkgm { digits: [m[4], m[5], m[6], m[7]] })
        }
    }
}

/// A version is well formed when its digits are ASCII digits and an
/// `OtherPkgm` does not spell one of the named versions.
pub open spec fn version_wf(v: ContainerVersion) -> bool {
    match v {
        ContainerVersion::OtherPkgm { digits } => {
            &&& forall|i: int| 0 <= i < 4 ==> #[trigger] is_digit(digits@[i])
            &&& digits@ != version_digits(ContainerVersion::Pkgm0014)
            &&& digits@ != version_digits(ContainerVersion::Pkgm0018)
            &&& digits@ != version_digits(ContainerVersion::Pkgm0020)
        },
        _ => true,
    }
}

impl ContainerVersion {
    pub fn is_writable(self) -> (r: bool)
        ensures
            r == spec_is_writable(self),
    {
        match self {
            ContainerVersion::Pkgm0018 | ContainerVersion::Pkgm0020 => true,
            _ => false,
        }
    }

    /// Bytes of the 8-byte magic.
    pub fn magic(self) -> (m: Vec<u8>)
        ensures
            m@ == magic_bytes(self),
    {
        let d: [u8; 4] = match self {
            ContainerVersion::Pkgm0014 => [48u8, 48u8, 49u8, 52u8],
            ContainerVersion::Pkgm0018 => [48u8, 48u8, 49u8, 56u8],
            ContainerVersion::Pkgm0020 => [48u8, 48u8, 50u8, 48u8],
            ContainerVersion::OtherPkgm { digits } => digits,
        };
        let m = vec![80u8, 75u8, 71u8, 77u8, d[0], d[1], d[2], d[3]];
        assert(d@ =~= version_digits(self));
        assert(m@ =~= magic_bytes(self));
        m
    }

    /// The magic as text: `PKGM` and the four digit bytes, each byte read
    /// as the character of the same number.
    pub fn as_magic(self) -> (s: String)
        ensures
            s@ == ascii_chars(magic_bytes(self)),
    {
        let m = self.magic();
        let mut s = String::new();
        let mut i: usize = 0;
        while i < m.len()
            invariant
                i <= m@.len(),
                m@ == magic_bytes(self),
                s@ == ascii_chars(m@.take(i as int)),
            decreases m@.len() - i,
        {
            let c = m[i] as char;
            push_char(&mut s, c);
            assert(ascii_chars(m@.take(i + 1)) =~= ascii_chars(m@.take(i as int)).push(c));
            i += 1;
        }
        assert(m@.take(m@.len() as int) =~= m@);
        s
    }

    /// Whether two versions are the same.
    pub fn same(self, other: ContainerVersion) -> (r: bool)
        ensures
            r == (self == other),
    {
        match (self, other) {
            (ContainerVersion::Pkgm0014, ContainerVersion::Pkgm0014) => true,
            (ContainerVersion::Pkgm0018, ContainerVersion::Pkgm0018) => true,
            (ContainerVersion::Pkgm0020, ContainerVersion::Pkgm0020) => true,
            (ContainerVersion::OtherPkgm { digits: a }, ContainerVersion::OtherPkgm { digits: b }) => {
                let r = a[0] == b[0] && a[1] == b[1] && a[2] == b[2] && a[3] == b[3];
                proof {
                    if r {
                        assert(a =~= b);
                    } else if a == b {
                        assert(a[0] == b[0] && a[1] == b[1] && a[2] == b[2] && a[3] == b[3]);
                    }
                }
                r
            },
            _ => false,
        }
    }

    /// Version named by an 8-byte `PKGM####` magic.
    pub fn from_magic(magic: &[u8]) -> (r: Result<ContainerVersion>)
        ensures
            r matches Ok(v) ==> spec_from_magic(magic@) == Some(v) && version_wf(v),
            r is Err ==> spec_from_magic(magic@) is None,
            r matches Err(e) ==> e is InvalidMpkg,
    {
        if magic.len() != 8 {
            return Err(Error::InvalidMpkg { reason: "unsupported container magic".to_owned() });
        }
        if !(magic[0] == 80 && magic[1] == 75 && magic[2] == 71 && magic[3] == 77) {
            proof {
                if magic@.subrange(0, 4) == pkgm_prefix() {
                    assert(magic@.subrange(0, 4)[0] == magic@[0]);
                    assert(magic@.subrange(0, 4)[1] == magic@[1]);
                    assert(magic@.subrange(0, 4)[2] == magic@[2]);
                    assert(magic@.subrange(0, 4)[3] == magic@[3]);
                }
            }
            return Err(Error::InvalidMpkg { reason: "unsupported container magic".to_owned() });
        }
        assert(magic@.subrange(0, 4) =~= pkgm_prefix());
        if !(ascii_digit(magic[4]) && ascii_digit(magic[5]) && ascii_digit(magic[6]) && ascii_digit(
            magic[7],
        )) {
            return Err(Error::InvalidMpkg { reason: "unsupported container magic".to_owned() });
        }
        let digits: [u8; 4] = [magic[4], magic[5], magic[6], magic[7]];
        let ghost d = magic@.subrange(4, 8);
        assert(digits@ =~= d);
        if digits[0] == 48 && digits[1] == 48 && digits[2] == 49 && digits[3] == 52 {
            assert(d =~= version_digits(ContainerVersion::Pkgm0014));
            Ok(ContainerVersion::Pkgm0014)
        } else if digits[0] == 48 && digits[1] == 48 && digits[2] == 49 && digits[3] == 56 {
            assert(d =~= version_digits(ContainerVersion::Pkgm0018));
            Ok(ContainerVersion::Pkgm0018)
        } else if digits[0] == 48 && digits[1] == 48 && digits[2] == 50 && digits[3] == 48 {
            assert(d =~= version_digits(ContainerVersion::Pkgm0020));
            Ok(ContainerVersion::Pkgm0020)
        } else {
            proof {
                if d == version_digits(ContainerVersion::Pkgm0014) {
                    assert(d[0] == 48 && d[1] == 48 && d[2] == 49 && d[3] == 52);
                }
                if d == version_digits(ContainerVersion::Pkgm0018) {
                    assert(d[0] == 48 && d[1] == 48 && d[2] == 49 && d[3] == 56);
                }
                if d == version_digits(ContainerVersion::Pkgm0020) {
                    assert(d[0] == 48 && d[1] == 48 && d[2] == 50 && d[3] == 48);
                }
                assert(spec_from_magic(magic@) == Some(ContainerVersion::OtherPkgm { digits: [magic@[4], magic@[5], magic@[6], magic@[7]] }));
                assert(digits == [magic@[4], magic@[5], magic@[6], magic@[7]]);
            }
            Ok(ContainerVersion::OtherPkgm { digits })
        }
    }
}

/// Reading back the magic of a well-formed version gives that version.
pub proof fn lemma_magic_round_trip(v: ContainerVersion)
    requires
        version_wf(v),
    ensures
        spec_from_magic(magic_bytes(v)) == Some(v),
{
    let m = magic_bytes(v);
    assert(m.subrange(0, 4) =~= pkgm_prefix());
    assert(m.subrange(4, 8) =~= version_digits(v));
    match v {
        ContainerVersion::OtherPkgm { digits } => {
            assert(is_digit(digits@[0]) && is_digit(digits@[1]) && is_digit(digits@[2]) && is_digit(digits@[3]));
            let a = [m[4], m[5], m[6], m[7]];
            assert(a[0] == digits[0] && a[1] == digits[1] && a[2] == digits[2] && a[3] == digits[3]);
            assert(a =~= digits);
        },
        _ => {},
    }
}

/// `String::push`: appends the character to the end of the text.
#[verifier::external_body]
fn push_char(s: &mut String, c: char)
    ensures
        final(s)@ == old(s)@.push(c),
{
    s.push(c);
}

} // verus!
