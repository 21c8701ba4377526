//! Storage location: a deterministic, collision-resistant shard directory
//! derived from the owning scope and the source URL, a freshly generated
//! asset identifier, and the storage path assembled from the three parts.
use vstd::prelude::*;

use crate::text::dec_int;
use crate::text::i32_to_string;

verus! {

/// The SHA-256 digest of a byte sequence. The digest has no short
/// definition; the trusted wrapper below ties this name to the outside
/// implementation.
pub uninterp spec fn spec_sha256(data: Seq<u8>) -> Seq<u8>;

/// Relies on `sha2::Sha256` through `digest::Digest::digest`: the SHA-256
/// digest is a pure function of the input bytes and is exactly 32 bytes.
#[verifier::external_body]
fn sha256_digest(data: &[u8]) -> (r: Vec<u8>)
    ensures
        r@ == spec_sha256(data@),
        r@.len() == 32,
{
    let out = <sha2::Sha256 as sha2::Digest>::digest(data);
    out.to_vec()
}

/// The lowercase hexadecimal digit for `d`.
pub open spec fn hex_digit_char(d: int) -> char {
    if d == 0 {
        '0'
    } else if d == 1 {
        '1'
    } else if d == 2 {
        '2'
    } else if d == 3 {
        '3'
    } else if d == 4 {
        '4'
    } else if d == 5 {
        '5'
    } else if d == 6 {
        '6'
    } else if d == 7 {
        '7'
    } else if d == 8 {
        '8'
    } else if d == 9 {
        '9'
    } else if d == 10 {
        'a'
    } else if d == 11 {
        'b'
    } else if d == 12 {
        'c'
    } else if d == 13 {
        'd'
    } else if d == 14 {
        'e'
    } else {
        'f'
    }
}

/// The two lowercase hexadecimal digits of a byte.
pub open spec fn hex_of_byte(b: int) -> Seq<char> {
    seq![hex_digit_char(b / 16), hex_digit_char(b % 16)]
}

/// The lowercase hexadecimal rendering of a byte sequence.
pub open spec fn hex_of(bytes: Seq<u8>) -> Seq<char>
    decreases bytes.len(),
{
    if bytes.len() == 0 {
        seq![]
    } else {
        hex_of_byte(bytes[0] as int) + hex_of(bytes.skip(1))
    }
}

/// Hexadecimal rendering doubles the length.
pub proof fn lemma_hex_of_len(bytes: Seq<u8>)
    ensures
        hex_of(bytes).len() == 2 * bytes.len(),
    decreases bytes.len(),
{
    if bytes.len() == 0 {
    } else {
        lemma_hex_of_len(bytes.skip(1));
    }
}

fn push_hex_digit(out: &mut String, d: u8)
    requires
        d < 16,
    ensures
        final(out)@ == old(out)@ + seq![hex_digit_char(d as int)],
{
    if d < 10 {
        crate::text::push_digit(out, d as u64);
        proof {
            assert(crate::text::digit_char(d as int) == hex_digit_char(d as int));
        }
    } else if d == 10 {
        out.append("a");
        proof {
            reveal_strlit("a");
            assert("a"@ =~= seq![hex_digit_char(d as int)]);
        }
    } else if d == 11 {
        out.append("b");
        proof {
            reveal_strlit("b");
            assert("b"@ =~= seq![hex_digit_char(d as int)]);
        }
    } else if d == 12 {
        out.append("c");
        proof {
            reveal_strlit("c");
            assert("c"@ =~= seq![hex_digit_char(d as int)]);
        }
    } else if d == 13 {
        out.append("d");
        proof {
            reveal_strlit("d");
            assert("d"@ =~= seq![hex_digit_char(d as int)]);
        }
    } else if d == 14 {
        out.append("e");
        proof {
            reveal_strlit("e");
            assert("e"@ =~= seq![hex_digit_char(d as int)]);
        }
    } else {
        out.append("f");
        proof {
            reveal_strlit("f");
            assert("f"@ =~= seq![hex_digit_char(d as int)]);
        }
    }
}

/// Renders bytes as lowercase hexadecimal, as the standard formatter would.
pub fn bytes_to_hex(bytes: &Vec<u8>) -> (r: String)
    ensures
        r@ == hex_of(bytes@),
{
    let mut out = String::new();
    let mut i: usize = 0;
    proof {
        assert(bytes@.skip(0) =~= bytes@);
        assert(Seq::<char>::empty() + hex_of(bytes@) =~= hex_of(bytes@));
    }
    while i < bytes.len()
        invariant
            i <= bytes@.len(),
            hex_of(bytes@) == out@ + hex_of(bytes@.skip(i as int)),
        decreases bytes@.len() - i,
    {
        let b = bytes[i];
        let ghost prev = out@;
        let ghost rest = bytes@.skip(i as int);
        push_hex_digit(&mut out, b / 16);
        push_hex_digit(&mut out, b % 16);
        proof {
            assert(rest[0] == b);
            assert(rest.skip(1) =~= bytes@.skip(i + 1));
            assert(prev + (hex_of_byte(b as int) + hex_of(bytes@.skip(i + 1))) =~= prev + seq![
                hex_digit_char(b as int / 16),
            ] + seq![hex_digit_char(b as int % 16)] + hex_of(bytes@.skip(i + 1)));
        }
        i = i + 1;
    }
    proof {
        assert(bytes@.skip(bytes@.len() as int) =~= Seq::<u8>::empty());
        assert(out@ + Seq::<char>::empty() =~= out@);
    }
    out
}

/// The key whose digest names the shard directory: the scope identifier and
/// the reference target, joined by a colon.
pub open spec fn spec_shard_key(post_id: int, url: Seq<char>) -> Seq<char> {
    dec_int(post_id) + seq![':'] + url
}

/// The shard directory for a scope and a reference target: the first 16
/// hexadecimal characters of the SHA-256 digest of the shard key.
pub open spec fn spec_shard(post_id: int, url: Seq<char>) -> Seq<char> {
    hex_of(spec_sha256(vstd::utf8::encode_utf8(spec_shard_key(post_id, url)))).subrange(0, 16)
}

/// Derives the shard directory name for one scope and reference target.
pub fn compute_shard(post_id: i32, url: &str) -> (r: String)
    ensures
        r@ == spec_shard(post_id as int, url@),
        r@.len() == 16,
{
    let mut key = i32_to_string(post_id);
    key.append(":");
    key.append(url);
    proof {
        reveal_strlit(":");
        assert(":"@ =~= seq![':']);
        assert(key@ =~= spec_shard_key(post_id as int, url@));
    }
    let digest = sha256_digest(key.as_str().as_bytes());
    let hex = bytes_to_hex(&digest);
    proof {
        lemma_hex_of_len(digest@);
    }
    let shard = hex.as_str().substring_char(0, 16);
    let r = shard.to_owned();
    proof {
        assert(r@ =~= spec_shard(post_id as int, url@));
    }
    r
}

/// A lowercase hexadecimal digit character.
pub open spec fn is_lower_hex(c: char) -> bool {
    (48 <= c as int && c as int <= 57) || (97 <= c as int && c as int <= 102)
}

/// The shape of a freshly generated asset identifier: the 36-character
/// hyphenated form, lowercase hexadecimal with hyphens at the four fixed
/// positions.
pub open spec fn spec_asset_id_wf(s: Seq<char>) -> bool {
    &&& s.len() == 36
    &&& forall|k: int| 0 <= k < 36 ==> (is_lower_hex(#[trigger] s[k]) || s[k] == '-')
    &&& s[8] == '-'
    &&& s[13] == '-'
    &&& s[18] == '-'
    &&& s[23] == '-'
}

/// Relies on `uuid::Uuid::new_v4` and its hyphenated `Display` form: a fresh
/// random identifier rendered as 36 characters, lowercase hexadecimal digits
/// with hyphens at positions 8, 13, 18 and 23. The value is random, so
/// nothing relates two calls; only the shape is promised.
#[verifier::external_body]
pub(crate) fn fresh_asset_id() -> (r: String)
    ensures
        spec_asset_id_wf(r@),
{
    uuid::Uuid::new_v4().to_string()
}

/// The storage path of one asset: shard directory, then the file named by
/// the asset identifier and its extension.
pub open spec fn spec_storage_path(shard: Seq<char>, id: Seq<char>, ext: Seq<char>) -> Seq<char> {
    shard + seq!['/'] + id + seq!['.'] + ext
}

/// Assembles the relative storage path `shard/id.ext`.
pub fn storage_path(shard: &str, id: &str, ext: &str) -> (r: String)
    ensures
        r@ == spec_storage_path(shard@, id@, ext@),
{
    let mut out = shard.to_owned();
    out.append("/");
    out.append(id);
    out.append(".");
    out.append(ext);
    proof {
        reveal_strlit("/");
        reveal_strlit(".");
        assert("/"@ =~= seq!['/']);
        assert("."@ =~= seq!['.']);
        assert(out@ =~= spec_storage_path(shard@, id@, ext@));
    }
    out
}

/// Distinct asset identifiers give distinct storage paths, whatever the
/// shards and extensions are: the identifier occupies a fixed span of the
/// path, so equal paths would carry equal identifiers.
pub proof fn lemma_storage_paths_distinct(
    shard1: Seq<char>,
    id1: Seq<char>,
    ext1: Seq<char>,
    shard2: Seq<char>,
    id2: Seq<char>,
    ext2: Seq<char>,
)
    requires
        shard1.len() == 16,
        shard2.len() == 16,
        id1.len() == 36,
        id2.len() == 36,
        id1 != id2,
    ensures
        spec_storage_path(shard1, id1, ext1) != spec_storage_path(shard2, id2, ext2),
{
    let p1 = spec_storage_path(shard1, id1, ext1);
    let p2 = spec_storage_path(shard2, id2, ext2);
    if p1 == p2 {
        assert forall|k: int| 0 <= k < 36 implies id1[k] == id2[k] by {
            assert(p1[17 + k] == id1[k]);
            assert(p2[17 + k] == id2[k]);
        }
        assert(id1 =~= id2);
    }
}

} // verus!
