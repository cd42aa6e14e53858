use vstd::prelude::*;

verus! {

/// Character sets that decoded text may be in.
#[derive(Debug, PartialEq, Eq, Clone, Copy, Structural)]
pub enum CharacterSet {
    Cp437,
    ISO8859_1,
    ISO8859_2,
    ISO8859_3,
    ISO8859_4,
    ISO8859_5,
    ISO8859_6,
    ISO8859_7,
    ISO8859_8,
    ISO8859_9,
    ISO8859_10,
    ISO8859_11,
    ISO8859_13,
    ISO8859_14,
    ISO8859_15,
    ISO8859_16,
    ShiftJis,
    Cp1250,
    Cp1251,
    Cp1252,
    Cp1256,
    UTF16BE,
    UTF8,
    ASCII,
    Big5,
    GB2312,
    GB18030,
    EucKr,
    UTF16LE,
    UTF32BE,
    UTF32LE,
    Binary,
    Unknown,
}

/// The canonical name of a character set.
pub open spec fn spec_charset_name(cs: CharacterSet) -> Seq<char> {
    match cs {
        CharacterSet::Cp437 => "cp437"@,
        CharacterSet::ISO8859_1 => "iso-8859-1"@,
        CharacterSet::ISO8859_2 => "iso-8859-2"@,
        CharacterSet::ISO8859_3 => "iso-8859-3"@,
        CharacterSet::ISO8859_4 => "iso-8859-4"@,
        CharacterSet::ISO8859_5 => "iso-8859-5"@,
        CharacterSet::ISO8859_6 => "iso-8859-6"@,
        CharacterSet::ISO8859_7 => "iso-8859-7"@,
        CharacterSet::ISO8859_8 => "iso-8859-8"@,
        CharacterSet::ISO8859_9 => "iso-8859-9"@,
        CharacterSet::ISO8859_10 => "iso-8859-10"@,
        CharacterSet::ISO8859_11 => "iso-8859-11"@,
        CharacterSet::ISO8859_13 => "iso-8859-13"@,
        CharacterSet::ISO8859_14 => "iso-8859-14"@,
        CharacterSet::ISO8859_15 => "iso-8859-15"@,
        CharacterSet::ISO8859_16 => "iso-8859-16"@,
        CharacterSet::ShiftJis => "shift_jis"@,
        CharacterSet::Cp1250 => "windows-1250"@,
        CharacterSet::Cp1251 => "windows-1251"@,
        CharacterSet::Cp1252 => "windows-1252"@,
        CharacterSet::Cp1256 => "windows-1256"@,
        CharacterSet::UTF16BE => "utf-16be"@,
        CharacterSet::UTF8 => "utf-8"@,
        CharacterSet::ASCII => "us-ascii"@,
        CharacterSet::Big5 => "big5"@,
        CharacterSet::GB2312 => "gb2312"@,
        CharacterSet::GB18030 => "gb18030"@,
        CharacterSet::EucKr => "euc-kr"@,
        CharacterSet::UTF16LE => "utf-16le"@,
        CharacterSet::UTF32BE => "utf-32be"@,
        CharacterSet::UTF32LE => "utf-32le"@,
        CharacterSet::Binary => "binary"@,
        CharacterSet::Unknown => "unknown"@,
    }
}

/// The character set that a lower-case name stands for.
pub open spec fn charset_for_name(name: Seq<char>) -> Option<CharacterSet> {
    if name == "cp437"@ {
        Some(CharacterSet::Cp437)
    } else if name == "iso-8859-1"@ {
        Some(CharacterSet::ISO8859_1)
    } else if name == "iso-8859-2"@ {
        Some(CharacterSet::ISO8859_2)
    } else if name == "iso-8859-3"@ {
        Some(CharacterSet::ISO8859_3)
    } else if name == "iso-8859-4"@ {
        Some(CharacterSet::ISO8859_4)
    } else if name == "iso-8859-5"@ {
        Some(CharacterSet::ISO8859_5)
    } else if name == "iso-8859-6"@ {
        Some(CharacterSet::ISO8859_6)
    } else if name == "iso-8859-7"@ {
        Some(CharacterSet::ISO8859_7)
    } else if name == "iso-8859-8"@ {
        Some(CharacterSet::ISO8859_8)
    } else if name == "iso-8859-9"@ {
        Some(CharacterSet::ISO8859_9)
    } else if name == "iso-8859-10"@ {
        Some(CharacterSet::ISO8859_10)
    } else if name == "iso-8859-11"@ {
        Some(CharacterSet::ISO8859_11)
    } else if name == "iso-8859-13"@ {
        Some(CharacterSet::ISO8859_13)
    } else if name == "iso-8859-14"@ {
        Some(CharacterSet::ISO8859_14)
    } else if name == "iso-8859-15"@ {
        Some(CharacterSet::ISO8859_15)
    } else if name == "iso-8859-16"@ {
        Some(CharacterSet::ISO8859_16)
    } else if name == "shift_jis"@ {
        Some(CharacterSet::ShiftJis)
    } else if name == "windows-1250"@ {
        Some(CharacterSet::Cp1250)
    } else if name == "windows-1251"@ {
        Some(CharacterSet::Cp1251)
    } else if name == "windows-1252"@ {
        Some(CharacterSet::Cp1252)
    } else if name == "windows-1256"@ {
        Some(CharacterSet::Cp1256)
    } else if name == "utf-16be"@ {
        Some(CharacterSet::UTF16BE)
    } else if name == "utf-8"@ || name == "utf8"@ {
        Some(CharacterSet::UTF8)
    } else if name == "us-ascii"@ {
        Some(CharacterSet::ASCII)
    } else if name == "big5"@ {
        Some(CharacterSet::Big5)
    } else if name == "gb2312"@ {
        Some(CharacterSet::GB2312)
    } else if name == "gb18030"@ {
        Some(CharacterSet::GB18030)
    } else if name == "euc-kr"@ {
        Some(CharacterSet::EucKr)
    } else if name == "utf-16le"@ || name == "utf16le"@ {
        Some(CharacterSet::UTF16LE)
    } else if name == "utf-32be"@ {
        Some(CharacterSet::UTF32BE)
    } else if name == "utf-32le"@ {
        Some(CharacterSet::UTF32LE)
    } else if name == "binary"@ {
        Some(CharacterSet::Binary)
    } else if name == "unknown"@ {
        Some(CharacterSet::Unknown)
    } else {
        None
    }
}

/// A string of lower-case letters, digits, `-` and `_` is ASCII and is its
/// own lower-case form.
proof fn lemma_lower_name(s: Seq<char>)
    requires
        forall|i: int|
            0 <= i < s.len() ==> ('a' <= #[trigger] s[i] <= 'z' || '0' <= s[i] <= '9' || s[i] == '-' || s[i]
                == '_'),
    ensures
        is_ascii_str(s),
        ascii_lowercase(s) == s,
{
    assert(ascii_lowercase(s) =~= s);
}

/// Every character set's name is non-empty lower-case ASCII, and the set is
/// what looking up that name gives: the names are a table that each set can
/// be found in again, whatever the case it is written in.
pub proof fn lemma_lookup_own_name(cs: CharacterSet)
    ensures
        spec_charset_name(cs).len() > 0,
        is_ascii_str(spec_charset_name(cs)),
        ascii_lowercase(spec_charset_name(cs)) == spec_charset_name(cs),
        charset_for_name(spec_charset_name(cs)) == Some(cs),
{
        reveal_strlit("cp437");
        reveal_strlit("iso-8859-1");
        reveal_strlit("iso-8859-2");
        reveal_strlit("iso-8859-3");
        reveal_strlit("iso-8859-4");
        reveal_strlit("iso-8859-5");
        reveal_strlit("iso-8859-6");
        reveal_strlit("iso-8859-7");
        reveal_strlit("iso-8859-8");
        reveal_strlit("iso-8859-9");
        reveal_strlit("iso-8859-10");
        reveal_strlit("iso-8859-11");
        reveal_strlit("iso-8859-13");
        reveal_strlit("iso-8859-14");
        reveal_strlit("iso-8859-15");
        reveal_strlit("iso-8859-16");
        reveal_strlit("shift_jis");
        reveal_strlit("windows-1250");
        reveal_strlit("windows-1251");
        reveal_strlit("windows-1252");
        reveal_strlit("windows-1256");
        reveal_strlit("utf-16be");
        reveal_strlit("utf-8");
        reveal_strlit("utf8");
        reveal_strlit("us-ascii");
        reveal_strlit("big5");
        reveal_strlit("gb2312");
        reveal_strlit("gb18030");
        reveal_strlit("euc-kr");
        reveal_strlit("utf-16le");
        reveal_strlit("utf16le");
        reveal_strlit("utf-32be");
        reveal_strlit("utf-32le");
        reveal_strlit("binary");
        reveal_strlit("unknown");
    let n = spec_charset_name(cs);
    assert forall|i: int|
        0 <= i < n.len() implies ('a' <= #[trigger] n[i] <= 'z' || '0' <= n[i] <= '9' || n[i] == '-' || n[i]
        == '_') by {
        match cs {
            _ => {},
        }
    }
    lemma_lower_name(n);
    match cs {
        CharacterSet::Cp437 => {
            assert(charset_for_name(n) == Some(CharacterSet::Cp437));
        },
        CharacterSet::ISO8859_1 => {
            assert(charset_for_name(n) == Some(CharacterSet::ISO8859_1));
        },
        CharacterSet::ISO8859_2 => {
            assert(n[9] != "iso-8859-1"@[9]);
            assert(charset_for_name(n) == Some(CharacterSet::ISO8859_2));
        },
        CharacterSet::ISO8859_3 => {
            assert(n[9] != "iso-8859-1"@[9]);
            assert(n[9] != "iso-8859-2"@[9]);
            assert(charset_for_name(n) == Some(CharacterSet::ISO8859_3));
        },
        CharacterSet::ISO8859_4 => {
            assert(n[9] != "iso-8859-1"@[9]);
            assert(n[9] != "iso-8859-2"@[9]);
            assert(n[9] != "iso-8859-3"@[9]);
            assert(charset_for_name(n) == Some(CharacterSet::ISO8859_4));
        },
        CharacterSet::ISO8859_5 => {
            assert(n[9] != "iso-8859-1"@[9]);
            assert(n[9] != "iso-8859-2"@[9]);
            assert(n[9] != "iso-8859-3"@[9]);
            assert(n[9] != "iso-8859-4"@[9]);
            assert(charset_for_name(n) == Some(CharacterSet::ISO8859_5));
        },
        CharacterSet::ISO8859_6 => {
            assert(n[9] != "iso-8859-1"@[9]);
            assert(n[9] != "iso-8859-2"@[9]);
            assert(n[9] != "iso-8859-3"@[9]);
            assert(n[9] != "iso-8859-4"@[9]);
            assert(n[9] != "iso-8859-5"@[9]);
            assert(charset_for_name(n) == Some(CharacterSet::ISO8859_6));
        },
        CharacterSet::ISO8859_7 => {
            assert(n[9] != "iso-8859-1"@[9]);
            assert(n[9] != "iso-8859-2"@[9]);
            assert(n[9] != "iso-8859-3"@[9]);
            assert(n[9] != "iso-8859-4"@[9]);
            assert(n[9] != "iso-8859-5"@[9]);
            assert(n[9] != "iso-8859-6"@[9]);
            assert(charset_for_name(n) == Some(CharacterSet::ISO8859_7));
        },
        CharacterSet::ISO8859_8 => {
            assert(n[9] != "iso-8859-1"@[9]);
            assert(n[9] != "iso-8859-2"@[9]);
            assert(n[9] != "iso-8859-3"@[9]);
            assert(n[9] != "iso-8859-4"@[9]);
            assert(n[9] != "iso-8859-5"@[9]);
            assert(n[9] != "iso-8859-6"@[9]);
            assert(n[9] != "iso-8859-7"@[9]);
            assert(charset_for_name(n) == Some(CharacterSet::ISO8859_8));
        },
        CharacterSet::ISO8859_9 => {
            assert(n[9] != "iso-8859-1"@[9]);
            assert(n[9] != "iso-8859-2"@[9]);
            assert(n[9] != "iso-8859-3"@[9]);
            assert(n[9] != "iso-8859-4"@[9]);
            assert(n[9] != "iso-8859-5"@[9]);
            assert(n[9] != "iso-8859-6"@[9]);
            assert(n[9] != "iso-8859-7"@[9]);
            assert(n[9] != "iso-8859-8"@[9]);
            assert(charset_for_name(n) == Some(CharacterSet::ISO8859_9));
        },
        CharacterSet::ISO8859_10 => {
            assert(charset_for_name(n) == Some(CharacterSet::ISO8859_10));
        },
        CharacterSet::ISO8859_11 => {
            assert(n[10] != "iso-8859-10"@[10]);
            assert(charset_for_name(n) == Some(CharacterSet::ISO8859_11));
        },
        CharacterSet::ISO8859_13 => {
            assert(n[10] != "iso-8859-10"@[10]);
            assert(n[10] != "iso-8859-11"@[10]);
            assert(charset_for_name(n) == Some(CharacterSet::ISO8859_13));
        },
        CharacterSet::ISO8859_14 => {
            assert(n[10] != "iso-8859-10"@[10]);
            assert(n[10] != "iso-8859-11"@[10]);
            assert(n[10] != "iso-8859-13"@[10]);
            assert(charset_for_name(n) == Some(CharacterSet::ISO8859_14));
        },
        CharacterSet::ISO8859_15 => {
            assert(n[10] != "iso-8859-10"@[10]);
            assert(n[10] != "iso-8859-11"@[10]);
            assert(n[10] != "iso-8859-13"@[10]);
            assert(n[10] != "iso-8859-14"@[10]);
            assert(charset_for_name(n) == Some(CharacterSet::ISO8859_15));
        },
        CharacterSet::ISO8859_16 => {
            assert(n[10] != "iso-8859-10"@[10]);
            assert(n[10] != "iso-8859-11"@[10]);
            assert(n[10] != "iso-8859-13"@[10]);
            assert(n[10] != "iso-8859-14"@[10]);
            assert(n[10] != "iso-8859-15"@[10]);
            assert(charset_for_name(n) == Some(CharacterSet::ISO8859_16));
        },
        CharacterSet::ShiftJis => {
            assert(charset_for_name(n) == Some(CharacterSet::ShiftJis));
        },
        CharacterSet::Cp1250 => {
            assert(charset_for_name(n) == Some(CharacterSet::Cp1250));
        },
        CharacterSet::Cp1251 => {
            assert(n[11] != "windows-1250"@[11]);
            assert(charset_for_name(n) == Some(CharacterSet::Cp1251));
        },
        CharacterSet::Cp1252 => {
            assert(n[11] != "windows-1250"@[11]);
            assert(n[11] != "windows-1251"@[11]);
            assert(charset_for_name(n) == Some(CharacterSet::Cp1252));
        },
        CharacterSet::Cp1256 => {
            assert(n[11] != "windows-1250"@[11]);
            assert(n[11] != "windows-1251"@[11]);
            assert(n[11] != "windows-1252"@[11]);
            assert(charset_for_name(n) == Some(CharacterSet::Cp1256));
        },
        CharacterSet::UTF16BE => {
            assert(charset_for_name(n) == Some(CharacterSet::UTF16BE));
        },
        CharacterSet::UTF8 => {
            assert(n[0] != "cp437"@[0]);
            assert(charset_for_name(n) == Some(CharacterSet::UTF8));
        },
        CharacterSet::ASCII => {
            assert(n[1] != "utf-16be"@[1]);
            assert(charset_for_name(n) == Some(CharacterSet::ASCII));
        },
        CharacterSet::Big5 => {
            assert(n[0] != "utf8"@[0]);
            assert(charset_for_name(n) == Some(CharacterSet::Big5));
        },
        CharacterSet::GB2312 => {
            assert(charset_for_name(n) == Some(CharacterSet::GB2312));
        },
        CharacterSet::GB18030 => {
            assert(charset_for_name(n) == Some(CharacterSet::GB18030));
        },
        CharacterSet::EucKr => {
            assert(n[0] != "gb2312"@[0]);
            assert(charset_for_name(n) == Some(CharacterSet::EucKr));
        },
        CharacterSet::UTF16LE => {
            assert(n[6] != "utf-16be"@[6]);
            assert(n[1] != "us-ascii"@[1]);
            assert(charset_for_name(n) == Some(CharacterSet::UTF16LE));
        },
        CharacterSet::UTF32BE => {
            assert(n[4] != "utf-16be"@[4]);
            assert(n[1] != "us-ascii"@[1]);
            assert(n[4] != "utf-16le"@[4]);
            assert(charset_for_name(n) == Some(CharacterSet::UTF32BE));
        },
        CharacterSet::UTF32LE => {
            assert(n[4] != "utf-16be"@[4]);
            assert(n[1] != "us-ascii"@[1]);
            assert(n[4] != "utf-16le"@[4]);
            assert(n[6] != "utf-32be"@[6]);
            assert(charset_for_name(n) == Some(CharacterSet::UTF32LE));
        },
        CharacterSet::Binary => {
            assert(n[0] != "gb2312"@[0]);
            assert(n[0] != "euc-kr"@[0]);
            assert(charset_for_name(n) == Some(CharacterSet::Binary));
        },
        CharacterSet::Unknown => {
            assert(n[0] != "gb18030"@[0]);
            assert(n[1] != "utf16le"@[1]);
            assert(charset_for_name(n) == Some(CharacterSet::Unknown));
        },
    }
}

/// Distinct character sets have distinct names.
pub proof fn lemma_names_distinct(a: CharacterSet, b: CharacterSet)
    requires
        a != b,
    ensures
        spec_charset_name(a) != spec_charset_name(b),
{
    lemma_lookup_own_name(a);
    lemma_lookup_own_name(b);
}

/// Looking a set up by its name written in any mix of ASCII upper and lower
/// case gives the set: `get_character_set_by_name` returns
/// `charset_for_name(ascii_lowercase(name))` for an ASCII name.
pub proof fn lemma_lookup_ignores_case(cs: CharacterSet, name: Seq<char>)
    requires
        is_ascii_str(name),
        ascii_lowercase(name) == spec_charset_name(cs),
    ensures
        charset_for_name(ascii_lowercase(name)) == Some(cs),
{
    lemma_lookup_own_name(cs);
}

/// The lower-case form of a string, as `str::to_lowercase` gives it.
pub uninterp spec fn lowercase_of(s: Seq<char>) -> Seq<char>;

/// Whether every character of a string is ASCII.
pub open spec fn is_ascii_str(s: Seq<char>) -> bool {
    forall|i: int| 0 <= i < s.len() ==> (#[trigger] s[i] as u32) < 128
}

/// A string with the ASCII letters `A` to `Z` made `a` to `z` and every
/// other character left as it is.
pub open spec fn ascii_lowercase(s: Seq<char>) -> Seq<char> {
    Seq::new(
        s.len(),
        |i: int|
            if 'A' <= s[i] && s[i] <= 'Z' {
                ((s[i] as u32) + 32) as char
            } else {
                s[i]
            },
    )
}

/// Lower-cases a string.
///
/// Calls `str::to_lowercase`; the contract names its result
/// (`lowercase_of`), which depends on the string alone, and states what the
/// documentation gives for an ASCII string: `A` to `Z` become `a` to `z`
/// and every other character stays. Of other strings nothing more is stated.
#[verifier::external_body]
pub(crate) fn to_lowercase(s: &str) -> (res: String)
    ensures
        res@ == lowercase_of(s@),
        is_ascii_str(s@) ==> res@ == ascii_lowercase(s@),
{
    s.to_lowercase()
}

pub(crate) fn str_equals(a: &str, b: &str) -> (res: bool)
    ensures
        res == (a@ == b@),
{
    let n = a.unicode_len();
    if n != b.unicode_len() {
        return false;
    }
    let mut i: usize = 0;
    while i < n
        invariant
            i <= n,
            n == a@.len(),
            n == b@.len(),
            forall|k: int| 0 <= k < i ==> a@[k] == b@[k],
        decreases n - i,
    {
        if a.get_char(i) != b.get_char(i) {
            return false;
        }
        i = i + 1;
    }
    assert(a@ =~= b@);
    true
}

impl CharacterSet {
    /// The canonical name of this character set.
    pub fn get_charset_name(&self) -> (res: &'static str)
        ensures
            res@ == spec_charset_name(*self),
    {
        match self {
            CharacterSet::Cp437 => "cp437",
            CharacterSet::ISO8859_1 => "iso-8859-1",
            CharacterSet::ISO8859_2 => "iso-8859-2",
            CharacterSet::ISO8859_3 => "iso-8859-3",
            CharacterSet::ISO8859_4 => "iso-8859-4",
            CharacterSet::ISO8859_5 => "iso-8859-5",
            CharacterSet::ISO8859_6 => "iso-8859-6",
            CharacterSet::ISO8859_7 => "iso-8859-7",
            CharacterSet::ISO8859_8 => "iso-8859-8",
            CharacterSet::ISO8859_9 => "iso-8859-9",
            CharacterSet::ISO8859_10 => "iso-8859-10",
            CharacterSet::ISO8859_11 => "iso-8859-11",
            CharacterSet::ISO8859_13 => "iso-8859-13",
            CharacterSet::ISO8859_14 => "iso-8859-14",
            CharacterSet::ISO8859_15 => "iso-8859-15",
            CharacterSet::ISO8859_16 => "iso-8859-16",
            CharacterSet::ShiftJis => "shift_jis",
            CharacterSet::Cp1250 => "windows-1250",
            CharacterSet::Cp1251 => "windows-1251",
            CharacterSet::Cp1252 => "windows-1252",
            CharacterSet::Cp1256 => "windows-1256",
            CharacterSet::UTF16BE => "utf-16be",
            CharacterSet::UTF8 => "utf-8",
            CharacterSet::ASCII => "us-ascii",
            CharacterSet::Big5 => "big5",
            CharacterSet::GB2312 => "gb2312",
            CharacterSet::GB18030 => "gb18030",
            CharacterSet::EucKr => "euc-kr",
            CharacterSet::UTF16LE => "utf-16le",
            CharacterSet::UTF32BE => "utf-32be",
            CharacterSet::UTF32LE => "utf-32le",
            CharacterSet::Binary => "binary",
            CharacterSet::Unknown => "unknown",
        }
    }

    /// The character set with the given name, compared without regard to
    /// case.
    pub fn get_character_set_by_name(name: &str) -> (res: Option<CharacterSet>)
        ensures
            res == charset_for_name(lowercase_of(name@)),
            is_ascii_str(name@) ==> res == charset_for_name(ascii_lowercase(name@)),
    {
        let lower = to_lowercase(name);
        proof {
            reveal_strlit("cp437");
            reveal_strlit("iso-8859-1");
            reveal_strlit("iso-8859-2");
            reveal_strlit("iso-8859-3");
            reveal_strlit("iso-8859-4");
            reveal_strlit("iso-8859-5");
            reveal_strlit("iso-8859-6");
            reveal_strlit("iso-8859-7");
            reveal_strlit("iso-8859-8");
            reveal_strlit("iso-8859-9");
            reveal_strlit("iso-8859-10");
            reveal_strlit("iso-8859-11");
            reveal_strlit("iso-8859-13");
            reveal_strlit("iso-8859-14");
            reveal_strlit("iso-8859-15");
            reveal_strlit("iso-8859-16");
            reveal_strlit("shift_jis");
            reveal_strlit("windows-1250");
            reveal_strlit("windows-1251");
            reveal_strlit("windows-1252");
            reveal_strlit("windows-1256");
            reveal_strlit("utf-16be");
            reveal_strlit("utf-8");
            reveal_strlit("utf8");
            reveal_strlit("us-ascii");
            reveal_strlit("big5");
            reveal_strlit("gb2312");
            reveal_strlit("gb18030");
            reveal_strlit("euc-kr");
            reveal_strlit("utf-16le");
            reveal_strlit("utf16le");
            reveal_strlit("utf-32be");
            reveal_strlit("utf-32le");
            reveal_strlit("binary");
            reveal_strlit("unknown");
        }
        if str_equals(lower.as_str(), "cp437") {
            return Some(CharacterSet::Cp437);
        }
        if str_equals(lower.as_str(), "iso-8859-1") {
            return Some(CharacterSet::ISO8859_1);
        }
        if str_equals(lower.as_str(), "iso-8859-2") {
            return Some(CharacterSet::ISO8859_2);
        }
        if str_equals(lower.as_str(), "iso-8859-3") {
            return Some(CharacterSet::ISO8859_3);
        }
        if str_equals(lower.as_str(), "iso-8859-4") {
            return Some(CharacterSet::ISO8859_4);
        }
        if str_equals(lower.as_str(), "iso-8859-5") {
            return Some(CharacterSet::ISO8859_5);
        }
        if str_equals(lower.as_str(), "iso-8859-6") {
            return Some(CharacterSet::ISO8859_6);
        }
        if str_equals(lower.as_str(), "iso-8859-7") {
            return Some(CharacterSet::ISO8859_7);
        }
        if str_equals(lower.as_str(), "iso-8859-8") {
            return Some(CharacterSet::ISO8859_8);
        }
        if str_equals(lower.as_str(), "iso-8859-9") {
            return Some(CharacterSet::ISO8859_9);
        }
        if str_equals(lower.as_str(), "iso-8859-10") {
            return Some(CharacterSet::ISO8859_10);
        }
        if str_equals(lower.as_str(), "iso-8859-11") {
            return Some(CharacterSet::ISO8859_11);
        }
        if str_equals(lower.as_str(), "iso-8859-13") {
            return Some(CharacterSet::ISO8859_13);
        }
        if str_equals(lower.as_str(), "iso-8859-14") {
            return Some(CharacterSet::ISO8859_14);
        }
        if str_equals(lower.as_str(), "iso-8859-15") {
            return Some(CharacterSet::ISO8859_15);
        }
        if str_equals(lower.as_str(), "iso-8859-16") {
            return Some(CharacterSet::ISO8859_16);
        }
        if str_equals(lower.as_str(), "shift_jis") {
            return Some(CharacterSet::ShiftJis);
        }
        if str_equals(lower.as_str(), "windows-1250") {
            return Some(CharacterSet::Cp1250);
        }
        if str_equals(lower.as_str(), "windows-1251") {
            return Some(CharacterSet::Cp1251);
        }
        if str_equals(lower.as_str(), "windows-1252") {
            return Some(CharacterSet::Cp1252);
        }
        if str_equals(lower.as_str(), "windows-1256") {
            return Some(CharacterSet::Cp1256);
        }
        if str_equals(lower.as_str(), "utf-16be") {
            return Some(CharacterSet::UTF16BE);
        }
        if str_equals(lower.as_str(), "utf-8") {
            return Some(CharacterSet::UTF8);
        }
        if str_equals(lower.as_str(), "utf8") {
            return Some(CharacterSet::UTF8);
        }
        if str_equals(lower.as_str(), "us-ascii") {
            return Some(CharacterSet::ASCII);
        }
        if str_equals(lower.as_str(), "big5") {
            return Some(CharacterSet::Big5);
        }
        if str_equals(lower.as_str(), "gb2312") {
            return Some(CharacterSet::GB2312);
        }
        if str_equals(lower.as_str(), "gb18030") {
            return Some(CharacterSet::GB18030);
        }
        if str_equals(lower.as_str(), "euc-kr") {
            return Some(CharacterSet::EucKr);
        }
        if str_equals(lower.as_str(), "utf-16le") {
            return Some(CharacterSet::UTF16LE);
        }
        if str_equals(lower.as_str(), "utf16le") {
            return Some(CharacterSet::UTF16LE);
        }
        if str_equals(lower.as_str(), "utf-32be") {
            return Some(CharacterSet::UTF32BE);
        }
        if str_equals(lower.as_str(), "utf-32le") {
            return Some(CharacterSet::UTF32LE);
        }
        if str_equals(lower.as_str(), "binary") {
            return Some(CharacterSet::Binary);
        }
        if str_equals(lower.as_str(), "unknown") {
            return Some(CharacterSet::Unknown);
        }
        None
    }
}

} // verus!
