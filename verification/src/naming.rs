//! File names inside the managed downloads folder: the stable per-track name,
//! the container extension and the relative paths of audio, partial and
//! artwork files.

use vstd::prelude::*;
use vstd::utf8::encode_utf8;

use crate::text::{chars_of, contains, contains_chars, occurs_at, string_from_chars};

verus! {

/// Folder created inside the chosen parent that holds every download.
pub const MANAGED_NAME: &'static str = "LiMusic Downloads";

/// Marker file that identifies a managed downloads folder.
pub const MARKER: &'static str = ".limusic-managed";

/// Sub-folder of audio files.
pub const AUDIO_DIR: &'static str = "audio";

/// Sub-folder of artwork files.
pub const ART_DIR: &'static str = "artwork";

/// The lower-case hexadecimal digit of a value below sixteen.
pub open spec fn hex_digit(v: int) -> char {
    if v < 10 {
        (('0' as u32) + v) as char
    } else {
        (('a' as u32) + v - 10) as char
    }
}

/// Two lower-case hexadecimal digits per byte, high nibble first, as
/// `format!("{b:02x}")` writes each byte.
pub open spec fn hex_lower(b: Seq<u8>) -> Seq<char> {
    Seq::new(
        2 * b.len(),
        |i: int|
            if i % 2 == 0 {
                hex_digit((b[i / 2] / 16) as int)
            } else {
                hex_digit((b[i / 2] % 16) as int)
            },
    )
}

/// The stable file name of a track: its id's UTF-8 bytes in hexadecimal.
pub open spec fn stable_name_of(video_id: Seq<char>) -> Seq<char> {
    hex_lower(encode_utf8(video_id))
}

/// The container extension for a stream's MIME type.
pub open spec fn ext_for(mime: Option<Seq<char>>) -> Seq<char> {
    let m = match mime {
        Some(m) => m,
        None => Seq::empty(),
    };
    if contains(m, "mp4"@) || contains(m, "mp4a"@) {
        "m4a"@
    } else {
        "webm"@
    }
}

/// `audio/<name>.<ext>`: where the finished audio file of a track lives.
pub open spec fn audio_path_of(video_id: Seq<char>, ext: Seq<char>) -> Seq<char> {
    AUDIO_DIR@ + "/"@ + stable_name_of(video_id) + "."@ + ext
}

/// `audio/<name>.<ext>.part`: where a track is written while it downloads.
pub open spec fn part_path_of(video_id: Seq<char>, ext: Seq<char>) -> Seq<char> {
    audio_path_of(video_id, ext) + ".part"@
}

/// `artwork/<name>.jpg`: where a track's artwork is kept.
pub open spec fn artwork_path_of(video_id: Seq<char>) -> Seq<char> {
    ART_DIR@ + "/"@ + stable_name_of(video_id) + ".jpg"@
}

fn hex_char(v: u8) -> (c: char)
    requires
        v < 16,
    ensures
        c == hex_digit(v as int),
{
    if v < 10 {
        ((('0' as u32) + (v as u32)) as u8) as char
    } else {
        ((('a' as u32) + (v as u32) - 10) as u8) as char
    }
}

/// The stable, file-system-safe name of a track: the lower-case hexadecimal
/// spelling of its id's UTF-8 bytes.
pub fn stable_name(video_id: &str) -> (name: String)
    ensures
        name@ == stable_name_of(video_id@),
{
    let out = stable_name_chars(video_id);
    string_from_chars(&out)
}

/// The characters of `stable_name(video_id)`.
pub fn stable_name_chars(video_id: &str) -> (out: Vec<char>)
    ensures
        out@ == stable_name_of(video_id@),
{
    let bytes = video_id.as_bytes();
    let mut out: Vec<char> = Vec::new();
    let n = bytes.len();
    let mut i: usize = 0;
    while i < n
        invariant
            i <= n,
            n == bytes@.len(),
            bytes@ == encode_utf8(video_id@),
            out@ == hex_lower(bytes@.take(i as int)),
        decreases n - i,
    {
        let b = bytes[i];
        let hi = hex_char(b / 16);
        let lo = hex_char(b % 16);
        out.push(hi);
        out.push(lo);
        i = i + 1;
        assert(out@ =~= hex_lower(bytes@.take(i as int)));
    }
    assert(bytes@.take(n as int) =~= bytes@);
    out
}

proof fn lemma_hex_digit_injective(a: int, b: int)
    requires
        0 <= a < 16,
        0 <= b < 16,
        hex_digit(a) == hex_digit(b),
    ensures
        a == b,
{
}

/// Two byte strings with the same hexadecimal spelling are equal.
pub proof fn lemma_hex_lower_injective(a: Seq<u8>, b: Seq<u8>)
    requires
        hex_lower(a) == hex_lower(b),
    ensures
        a == b,
{
    assert(hex_lower(a).len() == 2 * a.len());
    assert(a.len() == b.len());
    assert forall|i: int| 0 <= i < a.len() implies a[i] == b[i] by {
        let x = a[i];
        let y = b[i];
        let j = 2 * i;
        assert(j % 2 == 0 && j / 2 == i);
        assert((j + 1) % 2 == 1 && (j + 1) / 2 == i);
        assert(hex_lower(a)[j] == hex_digit((x / 16) as int));
        assert(hex_lower(b)[j] == hex_digit((y / 16) as int));
        assert(hex_lower(a)[j + 1] == hex_digit((x % 16) as int));
        assert(hex_lower(b)[j + 1] == hex_digit((y % 16) as int));
        lemma_hex_digit_injective((x / 16) as int, (y / 16) as int);
        lemma_hex_digit_injective((x % 16) as int, (y % 16) as int);
        assert(x == 16 * (x / 16) + x % 16);
        assert(y == 16 * (y / 16) + y % 16);
    }
    assert(a =~= b);
}

/// The hexadecimal spelling goes byte by byte: a byte becomes its high and
/// then its low nibble as a digit `0`-`9` or letter `a`-`f`, and the spelling
/// of two byte strings one after the other is their spellings one after the
/// other.
pub proof fn lemma_hex_lower_bytewise(a: Seq<u8>, b: Seq<u8>, x: u8)
    ensures
        hex_lower(a + b) == hex_lower(a) + hex_lower(b),
        hex_lower(seq![x]) == seq![hex_digit((x / 16) as int), hex_digit((x % 16) as int)],
        x / 16 < 10 ==> hex_lower(seq![x])[0] as u32 == '0' as u32 + (x / 16) as u32,
        x / 16 >= 10 ==> hex_lower(seq![x])[0] as u32 == 'a' as u32 + (x / 16) as u32 - 10,
        x % 16 < 10 ==> hex_lower(seq![x])[1] as u32 == '0' as u32 + (x % 16) as u32,
        x % 16 >= 10 ==> hex_lower(seq![x])[1] as u32 == 'a' as u32 + (x % 16) as u32 - 10,
{
    let l = hex_lower(a + b);
    let r = hex_lower(a) + hex_lower(b);
    assert forall|i: int| 0 <= i < l.len() implies l[i] == r[i] by {
        if i < 2 * a.len() {
            assert(i / 2 < a.len());
            assert((a + b)[i / 2] == a[i / 2]);
        } else {
            let j = i - 2 * a.len();
            assert(j / 2 == i / 2 - a.len());
            assert(j % 2 == i % 2);
            assert((a + b)[i / 2] == b[j / 2]);
        }
    }
    assert(l =~= r);
    assert(hex_lower(seq![x]) =~= seq![hex_digit((x / 16) as int), hex_digit((x % 16) as int)]);
}

/// Stable names are deterministic and distinct: two tracks share a stable
/// name only when their ids are equal.
pub proof fn lemma_stable_name_injective(a: Seq<char>, b: Seq<char>)
    requires
        stable_name_of(a) == stable_name_of(b),
    ensures
        a == b,
{
    lemma_hex_lower_injective(encode_utf8(a), encode_utf8(b));
    vstd::utf8::encode_utf8_decode_utf8(a);
    vstd::utf8::encode_utf8_decode_utf8(b);
}

/// Stable names are file-system safe: every character is a digit or a
/// lower-case letter from `a` to `f`.
pub proof fn lemma_stable_name_safe(video_id: Seq<char>, i: int)
    requires
        0 <= i < stable_name_of(video_id).len(),
    ensures
        ('0' <= stable_name_of(video_id)[i] && stable_name_of(video_id)[i] <= '9') || ('a'
            <= stable_name_of(video_id)[i] && stable_name_of(video_id)[i] <= 'f'),
{
}

/// The container extension for a stream's MIME type: `m4a` for MP4 audio,
/// `webm` otherwise.
pub fn ext_for_mime(mime: Option<&str>) -> (ext: &'static str)
    ensures
        ext@ == ext_for(
            match mime {
                Some(m) => Some(m@),
                None => None,
            },
        ),
        ext@ == "m4a"@ || ext@ == "webm"@,
        (ext@ == "m4a"@) <==> (mime matches Some(m) && contains(m@, "mp4"@)),
{
    proof {
        reveal_strlit("m4a");
        reveal_strlit("webm");
        reveal_strlit("mp4");
        reveal_strlit("mp4a");
        assert("mp4"@.len() == 3 && "mp4a"@.len() == 4);
        assert("m4a"@ != "webm"@) by {
            assert("m4a"@.len() != "webm"@.len());
        }
        if let Some(m) = mime {
            lemma_mp4a_names_mp4(m@);
        }
    }
    let m: Vec<char> = match mime {
        Some(m) => chars_of(m),
        None => Vec::new(),
    };
    let mp4 = chars_of("mp4");
    let mp4a = chars_of("mp4a");
    if contains_chars(&m, &mp4) || contains_chars(&m, &mp4a) {
        "m4a"
    } else {
        "webm"
    }
}

/// A type naming `mp4a` names `mp4` too, so the `mp4a` test adds nothing.
pub proof fn lemma_mp4a_names_mp4(m: Seq<char>)
    ensures
        contains(m, "mp4a"@) ==> contains(m, "mp4"@),
{
    reveal_strlit("mp4a");
    reveal_strlit("mp4");
    if contains(m, "mp4a"@) {
        let i = choose|i: int| occurs_at(m, "mp4a"@, i);
        assert(m.subrange(i, i + 3) =~= "mp4"@) by {
            assert forall|j: int| 0 <= j < 3 implies m.subrange(i, i + 3)[j] == "mp4"@[j] by {
                assert(m.subrange(i, i + 4)[j] == "mp4a"@[j]);
            }
        }
        assert(occurs_at(m, "mp4"@, i));
    }
}

/// Appends the characters of `s` to `v`.
pub fn push_str(v: &mut Vec<char>, s: &str)
    ensures
        final(v)@ == old(v)@ + s@,
{
    let c = chars_of(s);
    push_chars(v, &c);
}

/// Appends the characters of `c` to `v`.
pub fn push_chars(v: &mut Vec<char>, c: &Vec<char>)
    ensures
        final(v)@ == old(v)@ + c@,
{
    let ghost start = v@;
    let mut i: usize = 0;
    while i < c.len()
        invariant
            i <= c.len(),
            v@ == start + c@.take(i as int),
        decreases c.len() - i,
    {
        v.push(c[i]);
        i = i + 1;
        assert(v@ =~= start + c@.take(i as int));
    }
    assert(c@.take(c.len() as int) =~= c@);
}

/// `audio/<name>.<ext>`, the relative path of a finished audio file.
pub fn audio_path(video_id: &str, ext: &str) -> (p: String)
    ensures
        p@ == audio_path_of(video_id@, ext@),
{
    let mut v = chars_of(AUDIO_DIR);
    push_str(&mut v, "/");
    let name = stable_name_chars(video_id);
    push_chars(&mut v, &name);
    push_str(&mut v, ".");
    push_str(&mut v, ext);
    string_from_chars(&v)
}

/// `audio/<name>.<ext>.part`, the relative path of a file being written.
pub fn part_path(video_id: &str, ext: &str) -> (p: String)
    ensures
        p@ == part_path_of(video_id@, ext@),
{
    let mut v = chars_of(AUDIO_DIR);
    push_str(&mut v, "/");
    let name = stable_name_chars(video_id);
    push_chars(&mut v, &name);
    push_str(&mut v, ".");
    push_str(&mut v, ext);
    push_str(&mut v, ".part");
    string_from_chars(&v)
}

/// `artwork/<name>.jpg`, the relative path of a track's artwork.
pub fn artwork_path(video_id: &str) -> (p: String)
    ensures
        p@ == artwork_path_of(video_id@),
{
    let mut v = chars_of(ART_DIR);
    push_str(&mut v, "/");
    let name = stable_name_chars(video_id);
    push_chars(&mut v, &name);
    push_str(&mut v, ".jpg");
    string_from_chars(&v)
}

} // verus!
