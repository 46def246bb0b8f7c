//! The lossless audio formats the converter reads and writes.
use vstd::prelude::*;
use crate::path::{FsPath, path_extension};
use crate::text::{
    lower_byte, lower_char, append_str, bytes_eq_ignore_case, bytes_equal_ignore_case, chars_eq_ignore_case,
    str_equal, str_equal_ignore_case, string_of,
};

verus! {

#[derive(Debug, Clone, Copy, PartialEq, Eq, Structural)]
pub enum AudioFormat {
    Flac,
    Aiff,
    Wav,
}

/// The canonical name of each format, which is also its file extension.
pub open spec fn format_name(f: AudioFormat) -> Seq<char> {
    match f {
        AudioFormat::Flac => seq!['f', 'l', 'a', 'c'],
        AudioFormat::Aiff => seq!['a', 'i', 'f', 'f'],
        AudioFormat::Wav => seq!['w', 'a', 'v'],
    }
}

/// The canonical extension of each format as encoded bytes.
pub open spec fn format_extension_bytes(f: AudioFormat) -> Seq<u8> {
    match f {
        AudioFormat::Flac => seq![102u8, 108u8, 97u8, 99u8],
        AudioFormat::Aiff => seq![97u8, 105u8, 102u8, 102u8],
        AudioFormat::Wav => seq![119u8, 97u8, 118u8],
    }
}

/// The format that a file extension (text) names, ignoring ASCII case;
/// `aif` is accepted as a spelling of AIFF.
pub open spec fn format_of_extension(ext: Seq<char>) -> Option<AudioFormat> {
    if chars_eq_ignore_case(ext, seq!['f', 'l', 'a', 'c']) {
        Some(AudioFormat::Flac)
    } else if chars_eq_ignore_case(ext, seq!['a', 'i', 'f', 'f']) || chars_eq_ignore_case(
        ext,
        seq!['a', 'i', 'f'],
    ) {
        Some(AudioFormat::Aiff)
    } else if chars_eq_ignore_case(ext, seq!['w', 'a', 'v']) {
        Some(AudioFormat::Wav)
    } else {
        None
    }
}

/// The format that an encoded extension names. Bytes that are not UTF-8 can
/// never equal the ASCII names, so this agrees with decoding the extension
/// first and then matching the text.
pub open spec fn format_of_extension_bytes(ext: Seq<u8>) -> Option<AudioFormat> {
    if bytes_eq_ignore_case(ext, seq![102u8, 108u8, 97u8, 99u8]) {
        Some(AudioFormat::Flac)
    } else if bytes_eq_ignore_case(ext, seq![97u8, 105u8, 102u8, 102u8]) || bytes_eq_ignore_case(
        ext,
        seq![97u8, 105u8, 102u8],
    ) {
        Some(AudioFormat::Aiff)
    } else if bytes_eq_ignore_case(ext, seq![119u8, 97u8, 118u8]) {
        Some(AudioFormat::Wav)
    } else {
        None
    }
}

/// The format of a path, read from its file name's extension.
pub open spec fn format_of_path(p: crate::path::PathView) -> Option<AudioFormat> {
    match path_extension(p) {
        Some(e) => format_of_extension_bytes(e),
        None => None,
    }
}

/// What parsing a target-format value gives: the variant whose name is
/// `s` (up to ASCII case when `ignore_case`), else the message
/// `invalid variant: <s>`.
pub open spec fn parsed_format(s: Seq<char>, ignore_case: bool) -> Result<AudioFormat, Seq<char>> {
    let matches = |name: Seq<char>|
        if ignore_case {
            chars_eq_ignore_case(s, name)
        } else {
            s == name
        };
    if matches(format_name(AudioFormat::Flac)) {
        Ok(AudioFormat::Flac)
    } else if matches(format_name(AudioFormat::Aiff)) {
        Ok(AudioFormat::Aiff)
    } else if matches(format_name(AudioFormat::Wav)) {
        Ok(AudioFormat::Wav)
    } else {
        Err(invalid_variant_prefix() + s)
    }
}

pub open spec fn invalid_variant_prefix() -> Seq<char> {
    seq!['i', 'n', 'v', 'a', 'l', 'i', 'd', ' ', 'v', 'a', 'r', 'i', 'a', 'n', 't', ':', ' ']
}

/// Each format's canonical name reads back as that format: as a file
/// extension (text or bytes) and as a target-format value, whether or not
/// case is ignored.
pub proof fn law_canonical_name_round_trip(f: AudioFormat, ignore_case: bool)
    ensures
        format_of_extension(format_name(f)) == Some(f),
        format_of_extension_bytes(format_extension_bytes(f)) == Some(f),
        parsed_format(format_name(f), ignore_case) == Ok::<AudioFormat, Seq<char>>(f),
{
    assert(lower_char('f') == 'f' && lower_char('l') == 'l' && lower_char('a') == 'a');
    assert(lower_char('c') == 'c' && lower_char('i') == 'i' && lower_char('w') == 'w');
    assert(lower_char('v') == 'v');
    assert(!chars_eq_ignore_case(format_name(AudioFormat::Aiff), format_name(AudioFormat::Flac)))
        by {
        assert(lower_char(format_name(AudioFormat::Aiff)[0]) != lower_char(
            format_name(AudioFormat::Flac)[0],
        ));
    }
    assert(!chars_eq_ignore_case(format_name(AudioFormat::Wav), format_name(AudioFormat::Flac)));
    assert(!chars_eq_ignore_case(format_name(AudioFormat::Wav), format_name(AudioFormat::Aiff)));
    assert(!chars_eq_ignore_case(format_name(AudioFormat::Wav), seq!['a', 'i', 'f'])) by {
        assert(lower_char(format_name(AudioFormat::Wav)[0]) != lower_char('a'));
    }
    assert(!bytes_eq_ignore_case(format_extension_bytes(AudioFormat::Aiff), format_extension_bytes(AudioFormat::Flac))) by {
        assert(lower_byte(format_extension_bytes(AudioFormat::Aiff)[0]) != lower_byte(
            format_extension_bytes(AudioFormat::Flac)[0],
        ));
    }
    assert(!bytes_eq_ignore_case(format_extension_bytes(AudioFormat::Wav), format_extension_bytes(AudioFormat::Flac)));
    assert(!bytes_eq_ignore_case(format_extension_bytes(AudioFormat::Wav), format_extension_bytes(AudioFormat::Aiff)));
    assert(!bytes_eq_ignore_case(format_extension_bytes(AudioFormat::Wav), seq![97u8, 105u8, 102u8]));
    assert(format_name(AudioFormat::Aiff) != format_name(AudioFormat::Flac));
    assert(format_name(AudioFormat::Wav) != format_name(AudioFormat::Flac));
    assert(format_name(AudioFormat::Wav) != format_name(AudioFormat::Aiff));
}

/// Format detection ignores ASCII case: extensions that differ only in the
/// case of their letters name the same format (or none).
pub proof fn law_detection_ignores_case(a: Seq<char>, b: Seq<char>, x: Seq<u8>, y: Seq<u8>)
    requires
        chars_eq_ignore_case(a, b),
        bytes_eq_ignore_case(x, y),
    ensures
        format_of_extension(a) == format_of_extension(b),
        format_of_extension_bytes(x) == format_of_extension_bytes(y),
{
    assert forall|n: Seq<char>| chars_eq_ignore_case(a, n) <==> chars_eq_ignore_case(b, n) by {
        if chars_eq_ignore_case(a, n) {
            assert forall|i: int| 0 <= i < b.len() implies lower_char(#[trigger] b[i]) == lower_char(n[i]) by {
                assert(lower_char(a[i]) == lower_char(b[i]));
            }
        }
        if chars_eq_ignore_case(b, n) {
            assert forall|i: int| 0 <= i < a.len() implies lower_char(#[trigger] a[i]) == lower_char(n[i]) by {
                assert(lower_char(a[i]) == lower_char(b[i]));
            }
        }
    }
    assert forall|n: Seq<u8>| bytes_eq_ignore_case(x, n) <==> bytes_eq_ignore_case(y, n) by {
        if bytes_eq_ignore_case(x, n) {
            assert forall|i: int| 0 <= i < y.len() implies lower_byte(#[trigger] y[i]) == lower_byte(n[i]) by {
                assert(lower_byte(x[i]) == lower_byte(y[i]));
            }
        }
        if bytes_eq_ignore_case(y, n) {
            assert forall|i: int| 0 <= i < x.len() implies lower_byte(#[trigger] x[i]) == lower_byte(n[i]) by {
                assert(lower_byte(x[i]) == lower_byte(y[i]));
            }
        }
    }
}

impl AudioFormat {
    /// The canonical lower-case name.
    pub fn as_str(self) -> (r: &'static str)
        ensures
            r@ == format_name(self),
    {
        match self {
            AudioFormat::Flac => {
                proof {
                    reveal_strlit("flac");
                }
                "flac"
            },
            AudioFormat::Aiff => {
                proof {
                    reveal_strlit("aiff");
                }
                "aiff"
            },
            AudioFormat::Wav => {
                proof {
                    reveal_strlit("wav");
                }
                "wav"
            },
        }
    }

    /// The extension written on converted files.
    pub fn canonical_extension(self) -> (r: &'static str)
        ensures
            r@ == format_name(self),
    {
        self.as_str()
    }

    /// The canonical extension as the bytes of a file-name extension.
    pub fn extension_bytes(self) -> (r: Vec<u8>)
        ensures
            r@ == format_extension_bytes(self),
    {
        match self {
            AudioFormat::Flac => vec![102u8, 108u8, 97u8, 99u8],
            AudioFormat::Aiff => vec![97u8, 105u8, 102u8, 102u8],
            AudioFormat::Wav => vec![119u8, 97u8, 118u8],
        }
    }

    /// The canonical name as text (what `Display` writes).
    pub fn to_string(self) -> (r: String)
        ensures
            r@ == format_name(self),
    {
        string_of(self.canonical_extension())
    }

    /// The format named by a file extension, ignoring ASCII case.
    pub fn from_extension(extension: &str) -> (r: Option<AudioFormat>)
        ensures
            r == format_of_extension(extension@),
    {
        proof {
            reveal_strlit("flac");
            reveal_strlit("aiff");
            reveal_strlit("aif");
            reveal_strlit("wav");
        }
        if str_equal_ignore_case(extension, "flac") {
            Some(AudioFormat::Flac)
        } else if str_equal_ignore_case(extension, "aiff") || str_equal_ignore_case(
            extension,
            "aif",
        ) {
            Some(AudioFormat::Aiff)
        } else if str_equal_ignore_case(extension, "wav") {
            Some(AudioFormat::Wav)
        } else {
            None
        }
    }

    /// The format of a path, from the extension of its file name.
    pub fn from_path(path: &FsPath) -> (r: Option<AudioFormat>)
        ensures
            r == format_of_path(path@),
    {
        match path.extension() {
            Some(ext) => {
                if bytes_equal_ignore_case(&ext, &vec![102u8, 108u8, 97u8, 99u8]) {
                    Some(AudioFormat::Flac)
                } else if bytes_equal_ignore_case(&ext, &vec![97u8, 105u8, 102u8, 102u8])
                    || bytes_equal_ignore_case(&ext, &vec![97u8, 105u8, 102u8]) {
                    Some(AudioFormat::Aiff)
                } else if bytes_equal_ignore_case(&ext, &vec![119u8, 97u8, 118u8]) {
                    Some(AudioFormat::Wav)
                } else {
                    None
                }
            },
            None => None,
        }
    }

    /// Parses a target-format value by variant name, as the command line
    /// does (`aif` is not a variant name).
    pub fn from_str(value: &str, ignore_case: bool) -> (r: Result<AudioFormat, String>)
        ensures
            match r {
                Ok(f) => parsed_format(value@, ignore_case) == Ok::<AudioFormat, Seq<char>>(f),
                Err(msg) => parsed_format(value@, ignore_case) == Err::<AudioFormat, Seq<char>>(
                    msg@,
                ),
            },
    {
        let flac = Self::name_matches(value, AudioFormat::Flac, ignore_case);
        if flac {
            return Ok(AudioFormat::Flac);
        }
        if Self::name_matches(value, AudioFormat::Aiff, ignore_case) {
            return Ok(AudioFormat::Aiff);
        }
        if Self::name_matches(value, AudioFormat::Wav, ignore_case) {
            return Ok(AudioFormat::Wav);
        }
        let mut msg = string_of("invalid variant: ");
        proof {
            reveal_strlit("invalid variant: ");
            assert("invalid variant: "@ =~= invalid_variant_prefix());
        }
        append_str(&mut msg, value);
        Err(msg)
    }

    fn name_matches(value: &str, f: AudioFormat, ignore_case: bool) -> (r: bool)
        ensures
            r == (if ignore_case {
                chars_eq_ignore_case(value@, format_name(f))
            } else {
                value@ == format_name(f)
            }),
    {
        let name = f.as_str();
        if ignore_case {
            str_equal_ignore_case(value, name)
        } else {
            str_equal(value, name)
        }
    }
}

} // verus!
