//! Reader for Steam depot manifests: a minimal protobuf scanner that sums the
//! sizes of the file entries and guesses the target operating system.
use vstd::prelude::*;
use crate::text::{
    chars_of, ends_with_chars, contains_chars, has_substring, has_suffix, to_lowercase, lowercase,
    utf8_to_string,
};
use vstd::arithmetic::power2::{
    lemma2_to64, lemma2_to64_rest, lemma_pow2_adds, lemma_pow2_strictly_increases, pow2,
};

verus! {

broadcast use vstd::string::group_string_axioms;

// ---------------------------------------------------------------------------
// Protobuf primitives: specifications.
// ---------------------------------------------------------------------------

/// Value of little-endian base-128 groups: the sum of `(g[i] mod 128) * 2^(7i)`.
pub open spec fn base128(g: Seq<u8>) -> nat
    decreases g.len(),
{
    if g.len() == 0 {
        0
    } else {
        base128(g.drop_last()) + (g.last() % 128) as nat * pow2((7 * (g.len() - 1)) as nat)
    }
}

/// Reading a varint that starts at `pos`, `k` continuation bytes already passed:
/// the value (if the varint is complete and at most ten bytes long) and the
/// position after the bytes read.
pub open spec fn varint_scan(data: Seq<u8>, pos: int, k: nat) -> (Option<u64>, int)
    decreases 10 - k,
{
    if pos + k >= data.len() {
        (None, pos + k)
    } else if data[pos + k] < 128 {
        (
            Some((base128(data.subrange(pos, pos + k + 1)) % 0x1_0000_0000_0000_0000) as u64),
            pos + k + 1,
        )
    } else if k >= 9 {
        (None, pos + k + 1)
    } else {
        varint_scan(data, pos, k + 1)
    }
}

/// The varint at `pos` and the position after it.
pub open spec fn varint_at(data: Seq<u8>, pos: int) -> (Option<u64>, int) {
    varint_scan(data, pos, 0)
}

/// The field key at `pos` as (field number, wire type), and the position after it.
pub open spec fn tag_at(data: Seq<u8>, pos: int) -> (Option<(u32, u8)>, int) {
    let (v, p) = varint_at(data, pos);
    match v {
        Some(k) => (Some(((k >> 3u64) as u32, (k & 7u64) as u8)), p),
        None => (None, p),
    }
}

/// The length-delimited UTF-8 string at `pos` (None when its length cannot
/// be read, it runs past the data or it is not valid UTF-8) and the position
/// after what was consumed.
pub open spec fn string_at(data: Seq<u8>, pos: int) -> (Option<Seq<char>>, int) {
    let (l, p) = varint_at(data, pos);
    match l {
        None => (None, p),
        Some(n) => if p + n > data.len() {
            (None, p)
        } else {
            let bytes = data.subrange(p, p + n);
            (
                if vstd::utf8::valid_utf8(bytes) {
                    Some(vstd::utf8::decode_utf8(bytes))
                } else {
                    None
                },
                p + n,
            )
        },
    }
}

/// The position after skipping a field payload of wire type `wire` at `pos`
/// (varint, 64-bit, length-delimited, 32-bit); any other wire type skips nothing.
pub open spec fn skip_end(data: Seq<u8>, pos: int, wire: u8) -> int {
    if wire == 0 {
        varint_at(data, pos).1
    } else if wire == 1 {
        pos + 8
    } else if wire == 2 {
        let (l, p) = varint_at(data, pos);
        match l {
            Some(n) => p + n,
            None => p,
        }
    } else if wire == 5 {
        pos + 4
    } else {
        pos
    }
}

/// A position as a `usize` cursor holds it.
pub open spec fn cursor_of(p: int) -> int {
    if p > usize::MAX {
        usize::MAX as int
    } else {
        p
    }
}

// ---------------------------------------------------------------------------
// Lemmas on the primitives.
// ---------------------------------------------------------------------------

proof fn lemma_varint_scan_advances(data: Seq<u8>, pos: int, k: nat)
    requires
        0 <= pos,
        k <= 9,
    ensures
        varint_scan(data, pos, k).1 >= pos + k,
        pos + k < data.len() ==> varint_scan(data, pos, k).1 > pos + k,
        varint_scan(data, pos, k).1 <= if pos + k <= data.len() { data.len() as int } else { pos + k },
        varint_scan(data, pos, k).1 <= pos + 10,
        varint_scan(data, pos, k).0 is Some ==> varint_scan(data, pos, k).1 <= data.len(),
    decreases 10 - k,
{
    if pos + k >= data.len() {
    } else if data[pos + k] < 128 {
    } else if k >= 9 {
        assert(varint_scan(data, pos, k).0 is None);
    } else {
        lemma_varint_scan_advances(data, pos, k + 1);
    }
}

/// Reading a varint never moves backwards, and moves forward when there is data.
pub proof fn lemma_varint_advances(data: Seq<u8>, pos: int)
    requires
        0 <= pos,
    ensures
        varint_at(data, pos).1 >= pos,
        pos < data.len() ==> varint_at(data, pos).1 > pos,
        pos <= data.len() ==> varint_at(data, pos).1 <= data.len(),
        varint_at(data, pos).0 is Some ==> pos < varint_at(data, pos).1 <= data.len(),
        pos > data.len() ==> varint_at(data, pos).1 == pos,
{
    lemma_varint_scan_advances(data, pos, 0);
}

pub proof fn lemma_string_advances(data: Seq<u8>, pos: int)
    requires
        0 <= pos,
    ensures
        string_at(data, pos).1 >= pos,
{
    lemma_varint_advances(data, pos);
}

pub proof fn lemma_skip_advances(data: Seq<u8>, pos: int, wire: u8)
    requires
        0 <= pos,
    ensures
        skip_end(data, pos, wire) >= pos,
{
    lemma_varint_advances(data, pos);
}

proof fn lemma_base128_bound(g: Seq<u8>)
    ensures
        base128(g) < pow2((7 * g.len()) as nat),
    decreases g.len(),
{
    lemma2_to64();
    if g.len() > 0 {
        let n = g.len() - 1;
        lemma_base128_bound(g.drop_last());
        lemma_pow2_adds((7 * n) as nat, 7);
        lemma2_to64();
        assert(pow2((7 * g.len()) as nat) == pow2((7 * n) as nat) * 128) by {
            assert((7 * n) as nat + 7 == (7 * g.len()) as nat);
        }
        let x = (g.last() % 128) as nat;
        let p = pow2((7 * n) as nat);
        assert(x * p <= 127 * p) by (nonlinear_arith)
            requires
                x <= 127,
        ;
    }
}

// ---------------------------------------------------------------------------
// Protobuf primitives: executable readers.
// ---------------------------------------------------------------------------

/// Reads a varint at `*cursor`, moving the cursor past the bytes read.
/// Fails when the data ends before the varint does, or after ten bytes
/// that all carry the continuation bit.
pub fn read_varint(data: &[u8], cursor: &mut usize) -> (r: Result<u64, ()>)
    ensures
        *final(cursor) == varint_at(data@, *old(cursor) as int).1,
        r matches Ok(v) ==> varint_at(data@, *old(cursor) as int).0 == Some(v),
        r is Err ==> varint_at(data@, *old(cursor) as int).0 is None,
{
    let ghost start = *cursor as int;
    let mut result: u64 = 0;
    let mut shift: u64 = 0;
    let mut k: usize = 0;
    if *cursor >= data.len() {
        return Err(());
    }
    proof {
        lemma2_to64();
        assert(data@.subrange(start, start) =~= Seq::<u8>::empty());
    }
    loop
        invariant
            start == *old(cursor) as int,
            *cursor == start + k,
            start + k <= data.len(),
            k <= 9,
            shift == 7 * k,
            result == base128(data@.subrange(start, start + k)),
            result < pow2((7 * k) as nat),
            varint_scan(data@, start, k as nat) == varint_at(data@, start),
        decreases 10 - k,
    {
        if *cursor >= data.len() {
            return Err(());
        }
        let b = data[*cursor];
        *cursor += 1;
        let x: u64 = (b & 0x7F) as u64;
        let ghost g = data@.subrange(start, start + k + 1);
        proof {
            lemma2_to64();
            lemma2_to64_rest();
            assert(x == b % 128) by (bit_vector)
                requires
                    x == (b & 0x7F) as u64,
            ;
            assert(g.drop_last() =~= data@.subrange(start, start + k));
            assert(g.last() == b);
            lemma_base128_bound(g);
        }
        let ghost old_result = result;
        if k < 9 {
            proof {
                lemma_pow2_strictly_increases_le(shift, 56);
                assert(x * pow2(shift as nat) <= 127 * pow2(56)) by (nonlinear_arith)
                    requires
                        x <= 127,
                        pow2(shift as nat) <= pow2(56),
                ;
                assert(pow2(56) == 0x100000000000000);
                vstd::bits::lemma_u64_shl_is_mul(x, shift);
                vstd::bits::lemma_u64_shl_is_mul(1, shift);
                lemma_or_disjoint(result, x, shift);
            }
            result = result | (x << shift);
            proof {
                assert(result == base128(g));
                assert(base128(g) < pow2(64)) by {
                    lemma_pow2_strictly_increases_le((7 * (k + 1)) as u64, 64);
                }
                vstd::arithmetic::div_mod::lemma_small_mod(base128(g), 0x1_0000_0000_0000_0000);
            }
        } else {
            proof {
                lemma_last_group(result, x);
            }
            result = result | (x << shift);
        }
        if (b & 0x80) == 0 {
            proof {
                assert(b < 128) by (bit_vector)
                    requires
                        (b & 0x80) == 0,
                ;
            }
            return Ok(result);
        }
        proof {
            assert(b >= 128) by (bit_vector)
                requires
                    (b & 0x80) != 0,
            ;
        }
        shift += 7;
        if shift > 64 {
            return Err(());
        }
        k += 1;
    }
}

/// `pow2(a) <= pow2(b)` for `a <= b`.
proof fn lemma_pow2_strictly_increases_le(a: u64, b: u64)
    requires
        a <= b,
    ensures
        pow2(a as nat) <= pow2(b as nat),
{
    if a < b {
        lemma_pow2_strictly_increases(a as nat, b as nat);
    }
}

/// OR-ing a group into bits above the accumulated ones is addition.
proof fn lemma_or_disjoint(r: u64, x: u64, s: u64)
    requires
        s < 64,
        r < pow2(s as nat),
        (1u64 << s) == pow2(s as nat),
        x << s == x * pow2(s as nat),
        x * pow2(s as nat) <= u64::MAX,
    ensures
        (r | (x << s)) == r + x * pow2(s as nat),
        r + x * pow2(s as nat) <= u64::MAX,
{
    assert(r < (1u64 << s) ==> (r | (x << s)) == r + (x << s)) by (bit_vector)
        requires
            s < 64,
    ;
}

/// The tenth group keeps only its lowest bit, in bit 63.
proof fn lemma_last_group(r: u64, x: u64)
    requires
        r < pow2(63),
        x < 128,
    ensures
        (r | (x << 63u64)) == (r + x * pow2(63)) % 0x1_0000_0000_0000_0000,
{
    lemma2_to64_rest();
    assert(r < 0x8000000000000000u64 ==> (r | (x << 63u64)) == r + (x % 2) * 0x8000000000000000u64)
        by (bit_vector);
    let q = x / 2;
    assert(x == 2 * q + x % 2);
    assert(x * 0x8000000000000000 == q * 0x1_0000_0000_0000_0000 + (x % 2) * 0x8000000000000000)
        by (nonlinear_arith)
        requires
            x == 2 * q + x % 2,
    ;
    vstd::arithmetic::div_mod::lemma_mod_multiples_vanish(
        q as int,
        r + (x % 2) * 0x8000000000000000,
        0x1_0000_0000_0000_0000,
    );
    vstd::arithmetic::div_mod::lemma_small_mod(
        (r + (x % 2) * 0x8000000000000000) as nat,
        0x1_0000_0000_0000_0000,
    );
}

/// Reads a field key, giving (field number, wire type).
pub fn read_tag(data: &[u8], cursor: &mut usize) -> (r: Result<(u32, u8), ()>)
    ensures
        *final(cursor) == tag_at(data@, *old(cursor) as int).1,
        r matches Ok(t) ==> tag_at(data@, *old(cursor) as int).0 == Some(t),
        r is Err ==> tag_at(data@, *old(cursor) as int).0 is None,
{
    let val = match read_varint(data, cursor) {
        Ok(v) => v,
        Err(_) => return Err(()),
    };
    Ok(((val >> 3) as u32, (val & 0x07) as u8))
}

/// Reads a length-delimited UTF-8 string. On a length that runs past the data
/// the cursor stays after the length; on invalid UTF-8 it moves past the bytes.
pub fn read_string(data: &[u8], cursor: &mut usize) -> (r: Result<String, ()>)
    ensures
        *final(cursor) == string_at(data@, *old(cursor) as int).1,
        r matches Ok(s) ==> string_at(data@, *old(cursor) as int).0 == Some(s@),
        r is Err ==> string_at(data@, *old(cursor) as int).0 is None,
{
    proof {
        lemma_varint_advances(data@, *cursor as int);
    }
    let len = match read_varint(data, cursor) {
        Ok(v) => v,
        Err(_) => return Err(()),
    };
    if len > (data.len() - *cursor) as u64 {
        return Err(());
    }
    let n = len as usize;
    let bytes = vstd::slice::slice_subrange(data, *cursor, *cursor + n);
    *cursor += n;
    match utf8_to_string(bytes) {
        Some(s) => Ok(s),
        None => Err(()),
    }
}

/// Whether skipping a payload of wire type `wire` at `pos` succeeds.
pub open spec fn skip_ok(data: Seq<u8>, pos: int, wire: u8) -> bool {
    if wire == 0 || wire == 2 {
        varint_at(data, pos).0 is Some
    } else {
        wire == 1 || wire == 5
    }
}

/// Skips a field payload of wire type `wire` (a cursor that would pass
/// `usize::MAX` stops there). Group wire types are refused and skip nothing.
pub fn skip_field(data: &[u8], cursor: &mut usize, wire: u8) -> (r: Result<(), ()>)
    ensures
        *final(cursor) == cursor_of(skip_end(data@, *old(cursor) as int, wire)),
        r is Ok == skip_ok(data@, *old(cursor) as int, wire),
{
    proof {
        lemma_varint_advances(data@, *cursor as int);
    }
    if wire == 0 {
        match read_varint(data, cursor) {
            Ok(_) => {},
            Err(_) => return Err(()),
        }
    } else if wire == 1 {
        *cursor = cursor.saturating_add(8);
    } else if wire == 2 {
        let len = match read_varint(data, cursor) {
            Ok(v) => v,
            Err(_) => return Err(()),
        };
        if len > (usize::MAX - *cursor) as u64 {
            *cursor = usize::MAX;
        } else {
            *cursor = *cursor + len as usize;
        }
    } else if wire == 5 {
        *cursor = cursor.saturating_add(4);
    } else {
        return Err(());
    }
    Ok(())
}

// ---------------------------------------------------------------------------
// The manifest scan: specification.
// ---------------------------------------------------------------------------

/// Scanning the fields of one file-mapping message from `pos` up to `end`,
/// given the size and name found so far: the final (size, name). Field 1
/// (length-delimited) is the file name, field 2 (varint) the size; the last
/// readable value wins, others are skipped, and an unreadable key ends the scan.
pub open spec fn file_fields(data: Seq<u8>, pos: int, end: int, size: u64, name: Seq<char>) -> (
    u64,
    Seq<char>,
)
    decreases end - pos,
{
    if pos >= end || pos < 0 {
        (size, name)
    } else {
        let (t, p1) = tag_at(data, pos);
        match t {
            None => (size, name),
            Some((f, w)) => {
                let (next, size2, name2) = if f == 1 && w == 2 {
                    let (s, p) = string_at(data, p1);
                    (
                        p,
                        size,
                        match s {
                            Some(x) => x,
                            None => name,
                        },
                    )
                } else if f == 2 && w == 0 {
                    let (v, p) = varint_at(data, p1);
                    (
                        p,
                        match v {
                            Some(x) => x,
                            None => size,
                        },
                        name,
                    )
                } else {
                    (skip_end(data, p1, w), size, name)
                };
                if next < end {
                    proof {
                        lemma_varint_advances(data, pos);
                        lemma_string_advances(data, p1);
                        lemma_varint_advances(data, p1);
                        lemma_skip_advances(data, p1, w);
                    }
                    file_fields(data, next, end, size2, name2)
                } else {
                    (size2, name2)
                }
            },
        }
    }
}

/// The (size, name) entries of the file mappings (field 1, length-delimited)
/// found scanning the top-level fields from `pos`. The scan stops at the end of
/// the data, at an unreadable key, or at a file mapping that runs past the data;
/// a file mapping whose length cannot be read counts as empty.
pub open spec fn entries_from(data: Seq<u8>, pos: int) -> Seq<(u64, Seq<char>)>
    decreases data.len() - pos,
{
    if pos >= data.len() || pos < 0 {
        seq![]
    } else {
        let (t, p1) = tag_at(data, pos);
        match t {
            None => seq![],
            Some((f, w)) => {
                if f == 1 && w == 2 {
                    let (l, p2) = varint_at(data, p1);
                    let end = match l {
                        Some(n) => p2 + n,
                        None => p2,
                    };
                    if end > data.len() {
                        seq![]
                    } else {
                        proof {
                            lemma_varint_advances(data, pos);
                            lemma_varint_advances(data, p1);
                        }
                        seq![file_fields(data, p2, end, 0, seq![])] + entries_from(data, end)
                    }
                } else {
                    let next = skip_end(data, p1, w);
                    if next < data.len() {
                        proof {
                            lemma_varint_advances(data, pos);
                            lemma_skip_advances(data, p1, w);
                        }
                        entries_from(data, next)
                    } else {
                        seq![]
                    }
                }
            },
        }
    }
}

/// The file entries of a manifest, in order.
pub open spec fn manifest_entries(data: Seq<u8>) -> Seq<(u64, Seq<char>)> {
    entries_from(data, 0)
}

/// Sum of the sizes of the entries.
pub open spec fn sizes_total(entries: Seq<(u64, Seq<char>)>) -> nat
    decreases entries.len(),
{
    if entries.len() == 0 {
        0
    } else {
        sizes_total(entries.drop_last()) + entries.last().0 as nat
    }
}

/// A file name that tells the platform: a Windows binary (`.exe`, `.dll`),
/// a macOS bundle or image (`.app/`, `.dmg`) or a Linux library or package
/// (`.so`, `.deb`). Case-sensitive.
pub open spec fn is_platform_file(name: Seq<char>) -> bool {
    has_suffix(name, ".exe"@) || has_suffix(name, ".dll"@) || has_substring(name, ".app/"@)
        || has_suffix(name, ".dmg"@) || has_suffix(name, ".so"@) || has_suffix(name, ".deb"@)
}

/// The names kept for guessing the platform: the name of each of the first ten
/// entries, and (again) the name of every entry that is a platform file.
pub open spec fn sampled_names(entries: Seq<(u64, Seq<char>)>) -> Seq<Seq<char>>
    decreases entries.len(),
{
    if entries.len() == 0 {
        seq![]
    } else {
        let prev = sampled_names(entries.drop_last());
        let name = entries.last().1;
        let kept = if prev.len() < 10 {
            prev.push(name)
        } else {
            prev
        };
        if is_platform_file(name) {
            kept.push(name)
        } else {
            kept
        }
    }
}

/// The first `n` elements of `s` (all of them when there are fewer).
pub open spec fn first_n<A>(s: Seq<A>, n: nat) -> Seq<A> {
    if s.len() <= n {
        s
    } else {
        s.take(n as int)
    }
}

/// The characters of each string.
pub open spec fn names_view(v: Seq<String>) -> Seq<Seq<char>> {
    v.map_values(|s: String| s@)
}

// ---------------------------------------------------------------------------
// Platform guess.
// ---------------------------------------------------------------------------

/// A lower-cased name that points at Windows.
pub open spec fn windows_hint(lower: Seq<char>) -> bool {
    has_suffix(lower, ".exe"@) || has_suffix(lower, ".dll"@) || has_substring(lower, "windows"@)
}

/// A lower-cased name that points at macOS.
pub open spec fn mac_hint(lower: Seq<char>) -> bool {
    has_substring(lower, ".app/"@) || has_suffix(lower, ".dmg"@) || has_substring(lower, "macos"@)
        || has_substring(lower, "osx"@)
}

/// A lower-cased name that points at Linux.
pub open spec fn linux_hint(lower: Seq<char>) -> bool {
    has_suffix(lower, ".so"@) || has_suffix(lower, ".deb"@) || has_substring(lower, "linux"@)
}

/// Whether a lower-cased name points at Windows, macOS or Linux (selected by
/// `which`: 0, 1, 2).
pub open spec fn os_hint(lower: Seq<char>, which: int) -> bool {
    if which == 0 {
        windows_hint(lower)
    } else if which == 1 {
        mac_hint(lower)
    } else {
        linux_hint(lower)
    }
}

/// Number of names whose lower-cased form points at Windows, macOS or Linux
/// (selected by `which`: 0, 1, 2).
pub open spec fn os_score(names: Seq<Seq<char>>, which: int) -> nat
    decreases names.len(),
{
    if names.len() == 0 {
        0
    } else {
        os_score(names.drop_last(), which) + if os_hint(lowercase(names.last()), which) {
            1nat
        } else {
            0nat
        }
    }
}

/// The platform with a strictly highest score, or "Unknown".
pub open spec fn os_label(names: Seq<Seq<char>>) -> Seq<char> {
    let w = os_score(names, 0);
    let m = os_score(names, 1);
    let l = os_score(names, 2);
    if w > m && w > l {
        "Windows"@
    } else if m > w && m > l {
        "MacOS"@
    } else if l > w && l > m {
        "Linux"@
    } else {
        "Unknown"@
    }
}

/// Guesses the platform of a depot from file names: each name scores for
/// Windows, macOS and Linux by its lower-cased extension or keywords, and the
/// strict winner is the answer ("Windows", "MacOS", "Linux", or "Unknown").
pub fn guess_os(filenames: &[String]) -> (r: String)
    ensures
        r@ == os_label(names_view(filenames@)),
{
    let ghost names = names_view(filenames@);
    let mut win_score: usize = 0;
    let mut mac_score: usize = 0;
    let mut lin_score: usize = 0;
    let exe = chars_of(".exe");
    let dll = chars_of(".dll");
    let windows = chars_of("windows");
    let app = chars_of(".app/");
    let dmg = chars_of(".dmg");
    let macos = chars_of("macos");
    let osx = chars_of("osx");
    let so = chars_of(".so");
    let deb = chars_of(".deb");
    let linux = chars_of("linux");
    let mut i: usize = 0;
    while i < filenames.len()
        invariant
            i <= filenames.len(),
            names == names_view(filenames@),
            win_score == os_score(names.take(i as int), 0),
            mac_score == os_score(names.take(i as int), 1),
            lin_score == os_score(names.take(i as int), 2),
            win_score <= i,
            mac_score <= i,
            lin_score <= i,
            exe@ == ".exe"@,
            dll@ == ".dll"@,
            windows@ == "windows"@,
            app@ == ".app/"@,
            dmg@ == ".dmg"@,
            macos@ == "macos"@,
            osx@ == "osx"@,
            so@ == ".so"@,
            deb@ == ".deb"@,
            linux@ == "linux"@,
        decreases filenames.len() - i,
    {
        let lower_s = to_lowercase(filenames[i].as_str());
        let lower = chars_of(lower_s.as_str());
        proof {
            assert(names.take(i + 1).drop_last() =~= names.take(i as int));
            assert(names.take(i + 1).last() == filenames@[i as int]@);
        }
        if ends_with_chars(&lower, &exe) || ends_with_chars(&lower, &dll) || contains_chars(
            &lower,
            &windows,
        ) {
            win_score += 1;
        }
        if contains_chars(&lower, &app) || ends_with_chars(&lower, &dmg) || contains_chars(
            &lower,
            &macos,
        ) || contains_chars(&lower, &osx) {
            mac_score += 1;
        }
        if ends_with_chars(&lower, &so) || ends_with_chars(&lower, &deb) || contains_chars(
            &lower,
            &linux,
        ) {
            lin_score += 1;
        }
        i += 1;
    }
    assert(names.take(filenames.len() as int) =~= names);
    if win_score > mac_score && win_score > lin_score {
        "Windows".to_string()
    } else if mac_score > win_score && mac_score > lin_score {
        "MacOS".to_string()
    } else if lin_score > win_score && lin_score > mac_score {
        "Linux".to_string()
    } else {
        "Unknown".to_string()
    }
}

// ---------------------------------------------------------------------------
// The manifest scan: executable reader.
// ---------------------------------------------------------------------------

/// What a depot manifest says about its files.
#[derive(Debug)]
pub struct ManifestSummary {
    pub total_size: u64,
    pub file_count: u64,
    pub top_files: Vec<String>,
    /// "Windows", "MacOS", "Linux" or "Unknown".
    pub os: String,
}

/// Whether a file name tells the platform (see `is_platform_file`).
pub fn is_platform_file_exec(name: &str) -> (r: bool)
    ensures
        r == is_platform_file(name@),
{
    let n = chars_of(name);
    ends_with_chars(&n, &chars_of(".exe")) || ends_with_chars(&n, &chars_of(".dll"))
        || contains_chars(&n, &chars_of(".app/")) || ends_with_chars(&n, &chars_of(".dmg"))
        || ends_with_chars(&n, &chars_of(".so")) || ends_with_chars(&n, &chars_of(".deb"))
}

/// Reads one file-mapping message between `start` and `end`: its (size, name).
fn read_file_mapping(data: &[u8], start: usize, end: usize) -> (r: (u64, String))
    requires
        start <= end <= data.len(),
    ensures
        (r.0, r.1@) == file_fields(data@, start as int, end as int, 0, seq![]),
{
    let mut f_size: u64 = 0;
    let mut f_name = String::new();
    let mut inner_cursor = start;
    while inner_cursor < end
        invariant_except_break
            file_fields(data@, inner_cursor as int, end as int, f_size, f_name@) == file_fields(
                data@,
                start as int,
                end as int,
                0,
                seq![],
            ),
        invariant
            end <= data.len(),
        ensures
            (f_size, f_name@) == file_fields(data@, start as int, end as int, 0, seq![]),
        decreases usize::MAX - inner_cursor,
    {
        let ghost pos = inner_cursor as int;
        proof {
            lemma_varint_advances(data@, pos);
        }
        let (f_tag, f_wire) = match read_tag(data, &mut inner_cursor) {
            Ok(v) => v,
            Err(_) => break,
        };
        let ghost p1 = inner_cursor as int;
        proof {
            lemma_string_advances(data@, p1);
            lemma_varint_advances(data@, p1);
            lemma_skip_advances(data@, p1, f_wire);
        }
        if f_tag == 1 && f_wire == 2 {
            if let Ok(s) = read_string(data, &mut inner_cursor) {
                f_name = s;
            }
        } else if f_tag == 2 && f_wire == 0 {
            if let Ok(s) = read_varint(data, &mut inner_cursor) {
                f_size = s;
            }
        } else {
            let _ = skip_field(data, &mut inner_cursor, f_wire);
        }
    }
    (f_size, f_name)
}

proof fn lemma_total_step(total: u64, t: nat, s: u64)
    requires
        total == t % 0x1_0000_0000_0000_0000,
    ensures
        total.wrapping_add(s) == (t + s) % 0x1_0000_0000_0000_0000,
{
    vstd::arithmetic::div_mod::lemma_add_mod_noop(t as int, s as int, 0x1_0000_0000_0000_0000);
    vstd::arithmetic::div_mod::lemma_small_mod(s as nat, 0x1_0000_0000_0000_0000);
    if total + s >= 0x1_0000_0000_0000_0000 {
        vstd::arithmetic::div_mod::lemma_mod_multiples_vanish(
            1,
            total + s - 0x1_0000_0000_0000_0000,
            0x1_0000_0000_0000_0000,
        );
        vstd::arithmetic::div_mod::lemma_small_mod(
            (total + s - 0x1_0000_0000_0000_0000) as nat,
            0x1_0000_0000_0000_0000,
        );
    } else {
        vstd::arithmetic::div_mod::lemma_small_mod((total + s) as nat, 0x1_0000_0000_0000_0000);
    }
}

/// Summarizes a depot manifest: the number of file entries, the sum of their
/// sizes (modulo 2^64), up to five sampled file names and the guessed platform.
pub fn parse_manifest(data: &[u8]) -> (r: ManifestSummary)
    ensures
        r.file_count == manifest_entries(data@).len(),
        r.total_size == sizes_total(manifest_entries(data@)) % 0x1_0000_0000_0000_0000,
        names_view(r.top_files@) == first_n(sampled_names(manifest_entries(data@)), 5),
        r.os@ == os_label(sampled_names(manifest_entries(data@))),
{
    let mut cursor: usize = 0;
    let mut total_size: u64 = 0;
    let mut file_count: u64 = 0;
    let mut filenames: Vec<String> = Vec::new();
    let ghost mut seen: Seq<(u64, Seq<char>)> = seq![];
    proof {
        assert(seen + manifest_entries(data@) =~= manifest_entries(data@));
    }
    while cursor < data.len()
        invariant_except_break
            seen + entries_from(data@, cursor as int) == manifest_entries(data@),
            file_count <= cursor,
        invariant
            total_size == sizes_total(seen) % 0x1_0000_0000_0000_0000,
            file_count == seen.len(),
            names_view(filenames@) == sampled_names(seen),
        ensures
            seen == manifest_entries(data@),
            total_size == sizes_total(seen) % 0x1_0000_0000_0000_0000,
            file_count == seen.len(),
            names_view(filenames@) == sampled_names(seen),
        decreases usize::MAX - cursor,
    {
        let ghost pos = cursor as int;
        proof {
            lemma_varint_advances(data@, pos);
        }
        let (tag, wire) = match read_tag(data, &mut cursor) {
            Ok(v) => v,
            Err(_) => {
                proof {
                    assert(seen + seq![] =~= seen);
                }
                break;
            },
        };
        let ghost p1 = cursor as int;
        proof {
            lemma_varint_advances(data@, p1);
            lemma_skip_advances(data@, p1, wire);
        }
        if tag == 1 && wire == 2 {
            let len = match read_varint(data, &mut cursor) {
                Ok(v) => v,
                Err(_) => 0,
            };
            if len > (data.len() - cursor) as u64 {
                proof {
                    assert(seen + seq![] =~= seen);
                }
                break;
            }
            let end = cursor + len as usize;
            let (f_size, f_name) = read_file_mapping(data, cursor, end);
            let ghost entry = (f_size, f_name@);
            proof {
                lemma_total_step(total_size, sizes_total(seen), f_size);
                assert(seen.push(entry).drop_last() =~= seen);
                assert(seen + entries_from(data@, pos) =~= seen.push(entry) + entries_from(
                    data@,
                    end as int,
                ));
            }
            total_size = total_size.wrapping_add(f_size);
            file_count += 1;
            let ghost old_names = filenames@;
            if filenames.len() < 10 {
                filenames.push(f_name.clone());
            }
            if is_platform_file_exec(f_name.as_str()) {
                filenames.push(f_name);
            }
            proof {
                seen = seen.push(entry);
                assert(names_view(filenames@) =~= sampled_names(seen)) by {
                    assert(seen.drop_last() =~= seen.drop_last());
                    assert(names_view(old_names) == sampled_names(seen.drop_last()));
                    if old_names.len() < 10 {
                        assert(names_view(old_names.push(filenames@[old_names.len() as int]))
                            =~= names_view(old_names).push(entry.1));
                    }
                }
            }
            cursor = end;
        } else {
            let _ = skip_field(data, &mut cursor, wire);
            proof {
                if skip_end(data@, p1, wire) >= data.len() {
                    assert(seen + seq![] =~= seen);
                }
            }
        }
    }
    let mut top_files: Vec<String> = Vec::new();
    let mut i: usize = 0;
    while i < filenames.len() && i < 5
        invariant
            i <= filenames.len(),
            i <= 5,
            names_view(top_files@) == names_view(filenames@).take(i as int),
        decreases filenames.len() - i,
    {
        let ghost old_top = top_files@;
        top_files.push(filenames[i].clone());
        assert(top_files@ =~= old_top.push(filenames@[i as int]));
        assert(names_view(top_files@) =~= names_view(old_top).push(filenames@[i as int]@));
        i += 1;
        assert(names_view(top_files@) =~= names_view(filenames@).take(i as int));
    }
    assert(names_view(top_files@) =~= first_n(names_view(filenames@), 5));
    let os = guess_os(&filenames);
    ManifestSummary { total_size, file_count, top_files, os }
}

// ---------------------------------------------------------------------------
// Laws of the reader.
// ---------------------------------------------------------------------------

/// The protobuf (base-128, least significant group first) encoding of `v`.
pub open spec fn varint_bytes(v: nat) -> Seq<u8>
    decreases v,
{
    if v < 128 {
        seq![v as u8]
    } else {
        seq![(v % 128 + 128) as u8] + varint_bytes(v / 128)
    }
}

proof fn lemma_base128_cons(b: u8, rest: Seq<u8>)
    ensures
        base128(seq![b] + rest) == (b % 128) as nat + 128 * base128(rest),
    decreases rest.len(),
{
    lemma2_to64();
    if rest.len() == 0 {
        assert(seq![b] + rest =~= seq![b]);
        assert(seq![b].drop_last() =~= Seq::<u8>::empty());
        let s1 = seq![b];
        assert(pow2((7 * (s1.len() - 1)) as nat) == 1);
        assert(base128(s1) == base128(s1.drop_last()) + (b % 128) as nat * 1);
    } else {
        let init = rest.drop_last();
        let x = rest.last();
        lemma_base128_cons(b, init);
        let s = seq![b] + rest;
        assert(s.drop_last() =~= seq![b] + init);
        assert(s.last() == x);
        let n = init.len();
        lemma_pow2_adds((7 * n) as nat, 7);
        assert((7 * n) as nat + 7 == (7 * (s.len() - 1)) as nat);
        let p = pow2((7 * n) as nat);
        let xm = (x % 128) as nat;
        assert(base128(s) == base128(seq![b] + init) + xm * (p * 128));
        assert(base128(rest) == base128(init) + xm * p);
        assert(xm * (p * 128) == 128 * (xm * p)) by (nonlinear_arith);
        assert(128 * base128(rest) == 128 * base128(init) + 128 * (xm * p)) by (nonlinear_arith)
            requires
                base128(rest) == base128(init) + xm * p,
        ;
        assert(base128(seq![b] + init) == (b % 128) as nat + 128 * base128(init));
        assert(base128(s) == (b % 128) as nat + 128 * base128(rest));
    }
}

proof fn lemma_varint_bytes_shape(v: nat)
    ensures
        varint_bytes(v).len() >= 1,
        base128(varint_bytes(v)) == v,
        varint_bytes(v).last() < 128,
        forall|j: int| 0 <= j < varint_bytes(v).len() - 1 ==> varint_bytes(v)[j] >= 128,
    decreases v,
{
    if v < 128 {
        lemma_base128_cons(v as u8, Seq::<u8>::empty());
        assert(seq![v as u8] + Seq::<u8>::empty() =~= seq![v as u8]);
        assert(base128(Seq::<u8>::empty()) == 0);
    } else {
        let b = (v % 128 + 128) as u8;
        let rest = varint_bytes(v / 128);
        lemma_varint_bytes_shape(v / 128);
        lemma_base128_cons(b, rest);
        assert(b % 128 == v % 128);
        assert(v == 128 * (v / 128) + v % 128);
        let s = seq![b] + rest;
        assert(s.last() == rest.last());
        assert forall|j: int| 0 <= j < s.len() - 1 implies s[j] >= 128 by {
            if j > 0 {
                assert(s[j] == rest[j - 1]);
            }
        }
    }
}

proof fn lemma_varint_bytes_len(v: nat, n: nat)
    requires
        n >= 1,
        v < pow2(7 * n),
    ensures
        varint_bytes(v).len() <= n,
    decreases n,
{
    lemma2_to64();
    if v >= 128 {
        if n == 1 {
            assert(false);
        } else {
            lemma_pow2_adds((7 * (n - 1)) as nat, 7);
            assert((7 * (n - 1)) as nat + 7 == 7 * n);
            let p = pow2((7 * (n - 1)) as nat);
            assert(v / 128 < p) by (nonlinear_arith)
                requires
                    v < p * 128,
            ;
            lemma_varint_bytes_len(v / 128, (n - 1) as nat);
        }
    }
}

proof fn lemma_scan_encoded(data: Seq<u8>, pos: int, enc: Seq<u8>, k: nat)
    requires
        0 <= pos,
        pos + enc.len() <= data.len(),
        data.subrange(pos, pos + enc.len()) == enc,
        1 <= enc.len() <= 10,
        enc.last() < 128,
        forall|j: int| 0 <= j < enc.len() - 1 ==> enc[j] >= 128,
        k < enc.len(),
    ensures
        varint_scan(data, pos, k) == (
            Some((base128(enc) % 0x1_0000_0000_0000_0000) as u64),
            pos + enc.len(),
        ),
    decreases enc.len() - k,
{
    assert(data[pos + k] == enc[k as int]) by {
        assert(data.subrange(pos, pos + enc.len())[k as int] == data[pos + k]);
    }
    if k == enc.len() - 1 {
        assert(data.subrange(pos, pos + k + 1) == enc);
    } else {
        lemma_scan_encoded(data, pos, enc, k + 1);
    }
}

/// A varint encoding found at `pos` of `data` is read as its value.
proof fn lemma_varint_encoded(data: Seq<u8>, pos: int, v: u64)
    requires
        0 <= pos,
        pos + varint_bytes(v as nat).len() <= data.len(),
        data.subrange(pos, pos + varint_bytes(v as nat).len()) == varint_bytes(v as nat),
    ensures
        varint_at(data, pos) == (Some(v), pos + varint_bytes(v as nat).len()),
        1 <= varint_bytes(v as nat).len() <= 10,
{
    let enc = varint_bytes(v as nat);
    lemma_varint_bytes_shape(v as nat);
    lemma2_to64_rest();
    lemma_pow2_strictly_increases(64, 70);
    lemma_varint_bytes_len(v as nat, 10);
    lemma_scan_encoded(data, pos, enc, 0);
    vstd::arithmetic::div_mod::lemma_small_mod(v as nat, 0x1_0000_0000_0000_0000);
}

/// The reader gives back every 64-bit value from its protobuf encoding, and
/// moves past exactly that encoding, whatever comes before or after it.
pub proof fn law_varint_round_trip(v: u64, before: Seq<u8>, after: Seq<u8>)
    ensures
        varint_at(before + varint_bytes(v as nat) + after, before.len() as int) == (
            Some(v),
            (before.len() + varint_bytes(v as nat).len()) as int,
        ),
{
    let enc = varint_bytes(v as nat);
    let data = before + enc + after;
    lemma_varint_bytes_shape(v as nat);
    lemma2_to64_rest();
    lemma_pow2_strictly_increases(64, 70);
    lemma_varint_bytes_len(v as nat, 10);
    assert(data.subrange(before.len() as int, (before.len() + enc.len()) as int) =~= enc);
    lemma_varint_encoded(data, before.len() as int, v);
}

/// A platform scores every name that points at it, and nothing else.
proof fn lemma_os_score_all_or_none(names: Seq<Seq<char>>, which: int)
    ensures
        (forall|i: int| 0 <= i < names.len() ==> os_hint(lowercase(#[trigger] names[i]), which))
            ==> os_score(names, which) == names.len(),
        (forall|i: int| 0 <= i < names.len() ==> !os_hint(lowercase(#[trigger] names[i]), which))
            ==> os_score(names, which) == 0,
    decreases names.len(),
{
    if names.len() > 0 {
        let init = names.drop_last();
        lemma_os_score_all_or_none(init, which);
        if forall|i: int| 0 <= i < names.len() ==> os_hint(lowercase(#[trigger] names[i]), which) {
            assert forall|i: int| 0 <= i < init.len() implies os_hint(lowercase(#[trigger] init[i]), which) by {
                assert(init[i] == names[i]);
            }
            assert(names[names.len() - 1] == names.last());
        }
        if forall|i: int| 0 <= i < names.len() ==> !os_hint(lowercase(#[trigger] names[i]), which) {
            assert forall|i: int| 0 <= i < init.len() implies !os_hint(lowercase(#[trigger] init[i]), which) by {
                assert(init[i] == names[i]);
            }
            assert(names[names.len() - 1] == names.last());
        }
    }
}

/// Names that all point at one platform alone give that platform: Windows
/// for names whose lower-cased forms end in ".exe" or ".dll", macOS for ".dmg"
/// images, Linux for ".so" libraries, when no name holds a hint of another
/// platform (".app/", "macos", "osx", ".dmg"; "windows", ".exe", ".dll";
/// "linux", ".so", ".deb").
pub proof fn law_guess_os_single_platform(names: Seq<Seq<char>>)
    requires
        names.len() > 0,
    ensures
        (forall|i: int|
            0 <= i < names.len() ==> {
                let l = lowercase(#[trigger] names[i]);
                &&& has_suffix(l, ".exe"@) || has_suffix(l, ".dll"@)
                &&& !has_substring(l, ".app/"@) && !has_suffix(l, ".dmg"@) && !has_substring(
                    l,
                    "macos"@,
                ) && !has_substring(l, "osx"@)
                &&& !has_suffix(l, ".so"@) && !has_suffix(l, ".deb"@) && !has_substring(
                    l,
                    "linux"@,
                )
            }) ==> os_label(names) == "Windows"@,
        (forall|i: int|
            0 <= i < names.len() ==> {
                let l = lowercase(#[trigger] names[i]);
                &&& has_suffix(l, ".dmg"@)
                &&& !has_suffix(l, ".exe"@) && !has_suffix(l, ".dll"@) && !has_substring(
                    l,
                    "windows"@,
                )
                &&& !has_suffix(l, ".so"@) && !has_suffix(l, ".deb"@) && !has_substring(
                    l,
                    "linux"@,
                )
            }) ==> os_label(names) == "MacOS"@,
        (forall|i: int|
            0 <= i < names.len() ==> {
                let l = lowercase(#[trigger] names[i]);
                &&& has_suffix(l, ".so"@)
                &&& !has_suffix(l, ".exe"@) && !has_suffix(l, ".dll"@) && !has_substring(
                    l,
                    "windows"@,
                )
                &&& !has_substring(l, ".app/"@) && !has_suffix(l, ".dmg"@) && !has_substring(
                    l,
                    "macos"@,
                ) && !has_substring(l, "osx"@)
            }) ==> os_label(names) == "Linux"@,
{
    lemma_os_score_all_or_none(names, 0);
    lemma_os_score_all_or_none(names, 1);
    lemma_os_score_all_or_none(names, 2);
}

/// Removing one name lowers each platform score by that name's own hit.
proof fn lemma_os_score_remove(names: Seq<Seq<char>>, j: int, which: int)
    requires
        0 <= j < names.len(),
    ensures
        os_score(names, which) == os_score(names.remove(j), which) + if os_hint(
            lowercase(names[j]),
            which,
        ) {
            1nat
        } else {
            0nat
        },
    decreases names.len(),
{
    if j == names.len() - 1 {
        assert(names.remove(j) =~= names.drop_last());
    } else {
        lemma_os_score_remove(names.drop_last(), j, which);
        assert(names.remove(j).drop_last() =~= names.drop_last().remove(j));
        assert(names.remove(j).last() == names.last());
    }
}

/// Platform scores depend only on which names occur how often.
proof fn lemma_os_score_multiset(a: Seq<Seq<char>>, b: Seq<Seq<char>>, which: int)
    requires
        a.to_multiset() == b.to_multiset(),
    ensures
        os_score(a, which) == os_score(b, which),
    decreases a.len(),
{
    broadcast use vstd::seq_lib::group_to_multiset_ensures;

    if a.len() == 0 {
        assert(a.to_multiset().len() == a.len());
        assert(b.to_multiset().len() == b.len());
        assert(b =~= a);
    } else {
        let x = a.last();
        let n = a.len() - 1;
        assert(a.remove(n) =~= a.drop_last());
        assert(a.to_multiset().count(x) > 0);
        assert(b.contains(x));
        let j = choose|j: int| 0 <= j < b.len() && b[j] == x;
        assert(a.drop_last().to_multiset() == b.remove(j).to_multiset());
        lemma_os_score_multiset(a.drop_last(), b.remove(j), which);
        lemma_os_score_remove(b, j, which);
    }
}

/// The platform guess does not depend on the order of the names: two lists
/// holding the same names, each as often, get the same answer, and the answer
/// is always "Windows", "MacOS", "Linux" or "Unknown".
pub proof fn law_guess_os_order_free(f: Seq<String>, g: Seq<String>)
    requires
        names_view(f).to_multiset() == names_view(g).to_multiset(),
    ensures
        os_label(names_view(f)) == os_label(names_view(g)),
        os_label(names_view(f)) == "Windows"@ || os_label(names_view(f)) == "MacOS"@
            || os_label(names_view(f)) == "Linux"@ || os_label(names_view(f)) == "Unknown"@,
{
    lemma_os_score_multiset(names_view(f), names_view(g), 0);
    lemma_os_score_multiset(names_view(f), names_view(g), 1);
    lemma_os_score_multiset(names_view(f), names_view(g), 2);
}

/// The name field (field 1, length-delimited) of a file mapping.
pub open spec fn name_field(name: Seq<char>) -> Seq<u8> {
    seq![0x0Au8] + varint_bytes(vstd::utf8::encode_utf8(name).len()) + vstd::utf8::encode_utf8(
        name,
    )
}

/// The size field (field 2, varint) of a file mapping.
pub open spec fn size_field(size: u64) -> Seq<u8> {
    seq![0x10u8] + varint_bytes(size as nat)
}

/// A file-mapping message: its name, then its size.
pub open spec fn file_mapping_body(name: Seq<char>, size: u64) -> Seq<u8> {
    name_field(name) + size_field(size)
}

/// A manifest's field 1 holding a file mapping.
pub open spec fn file_mapping_record(name: Seq<char>, size: u64) -> Seq<u8> {
    seq![0x0Au8] + varint_bytes(file_mapping_body(name, size).len()) + file_mapping_body(name, size)
}

/// A manifest listing `files` as (size, name), in order.
pub open spec fn manifest_bytes(files: Seq<(u64, Seq<char>)>) -> Seq<u8>
    decreases files.len(),
{
    if files.len() == 0 {
        seq![]
    } else {
        file_mapping_record(files[0].1, files[0].0) + manifest_bytes(files.drop_first())
    }
}

/// A piece of a piece found in `data` is found in `data`.
proof fn lemma_piece(data: Seq<u8>, p: int, whole: Seq<u8>, off: int, part: Seq<u8>)
    requires
        0 <= p,
        p + whole.len() <= data.len(),
        data.subrange(p, p + whole.len()) == whole,
        0 <= off,
        off + part.len() <= whole.len(),
        whole.subrange(off, off + part.len()) == part,
    ensures
        data.subrange(p + off, p + off + part.len()) == part,
{
    assert forall|i: int| 0 <= i < part.len() implies data.subrange(
        p + off,
        p + off + part.len(),
    )[i] == part[i] by {
        assert(whole.subrange(off, off + part.len())[i] == whole[off + i]);
        assert(data.subrange(p, p + whole.len())[off + i] == data[p + off + i]);
    }
    assert(data.subrange(p + off, p + off + part.len()) =~= part);
}

proof fn lemma_key_bytes()
    ensures
        varint_bytes(10) == seq![0x0Au8],
        varint_bytes(16) == seq![0x10u8],
        (10u64 >> 3u64) as u32 == 1u32,
        (10u64 & 7u64) as u8 == 2u8,
        (16u64 >> 3u64) as u32 == 2u32,
        (16u64 & 7u64) as u8 == 0u8,
{
    assert((10u64 >> 3u64) as u32 == 1u32) by (bit_vector);
    assert((10u64 & 7u64) as u8 == 2u8) by (bit_vector);
    assert((16u64 >> 3u64) as u32 == 2u32) by (bit_vector);
    assert((16u64 & 7u64) as u8 == 0u8) by (bit_vector);
}

/// A file mapping found in `data` is read as its (size, name).
proof fn lemma_file_fields_of_body(data: Seq<u8>, p: int, name: Seq<char>, size: u64)
    requires
        0 <= p,
        p + file_mapping_body(name, size).len() <= data.len(),
        data.subrange(p, p + file_mapping_body(name, size).len()) == file_mapping_body(name, size),
        vstd::utf8::encode_utf8(name).len() <= 0xFFFF_FFFF,
    ensures
        file_fields(data, p, p + file_mapping_body(name, size).len(), 0, seq![]) == (size, name),
{
    let body = file_mapping_body(name, size);
    let nb = vstd::utf8::encode_utf8(name);
    let n = nb.len() as u64;
    let lv = varint_bytes(n as nat);
    let sv = varint_bytes(size as nat);
    let end = p + body.len();
    lemma_key_bytes();
    assert(body =~= seq![0x0Au8] + lv + nb + seq![0x10u8] + sv);
    // the name key
    assert(body.subrange(0, 1) =~= varint_bytes(10));
    lemma_piece(data, p, body, 0, varint_bytes(10));
    lemma_varint_encoded(data, p, 10);
    // the name length and bytes
    let ll: int = lv.len() as int;
    let nl: int = nb.len() as int;
    let sl: int = sv.len() as int;
    assert(body.subrange(1, 1 + ll) =~= lv);
    lemma_piece(data, p, body, 1, lv);
    lemma_varint_encoded(data, p + 1, n);
    let q0 = p + 1 + ll;
    assert(body.subrange(1 + ll, 1 + ll + nl) =~= nb);
    lemma_piece(data, p, body, 1 + ll, nb);
    vstd::utf8::encode_utf8_valid_utf8(name);
    vstd::utf8::encode_utf8_decode_utf8(name);
    assert(string_at(data, p + 1) == (Some(name), q0 + nb.len()));
    // the size key and value
    let q = q0 + nb.len();
    let off: int = 1 + ll + nl;
    assert(body.subrange(off, off + 1) =~= varint_bytes(16));
    lemma_piece(data, p, body, off, varint_bytes(16));
    lemma_varint_encoded(data, q, 16);
    assert(body.subrange(off + 1, off + 1 + sl) =~= sv);
    lemma_piece(data, p, body, off + 1, sv);
    lemma_varint_encoded(data, q + 1, size);
    assert(q + 1 + sv.len() == end);
    assert(file_fields(data, q, end, 0, name) == (size, name));
}

/// File mappings found in `data` from `pos` to its end are read as their entries.
proof fn lemma_entries_of_records(data: Seq<u8>, pos: int, files: Seq<(u64, Seq<char>)>)
    requires
        0 <= pos <= data.len(),
        data.subrange(pos, data.len() as int) == manifest_bytes(files),
        forall|i: int| 0 <= i < files.len() ==> vstd::utf8::encode_utf8(#[trigger] files[i].1).len() <= 0xFFFF_FFFF,
    ensures
        entries_from(data, pos) == files,
    decreases files.len(),
{
    if files.len() == 0 {
        assert(data.subrange(pos, data.len() as int).len() == 0);
        assert(files =~= Seq::<(u64, Seq<char>)>::empty());
    } else {
        let (size, name) = files[0];
        let body = file_mapping_body(name, size);
        let rec = file_mapping_record(name, size);
        let rest = files.drop_first();
        let whole = data.subrange(pos, data.len() as int);
        assert(whole == rec + manifest_bytes(rest));
        lemma_key_bytes();
        assert(vstd::utf8::encode_utf8(files[0].1).len() <= 0xFFFF_FFFF);
        // body length fits a varint
        let nb = vstd::utf8::encode_utf8(name);
        lemma2_to64_rest();
        lemma_pow2_strictly_increases(64, 70);
        lemma_varint_bytes_len(nb.len(), 10);
        lemma_varint_bytes_len(size as nat, 10);
        let blen = body.len() as u64;
        let lb = varint_bytes(blen as nat);
        assert(data.subrange(pos, pos + rec.len()) =~= rec) by {
            assert forall|i: int| 0 <= i < rec.len() implies data.subrange(pos, pos + rec.len())[i]
                == rec[i] by {
                assert(whole[i] == rec[i]);
            }
        }
        assert(rec.subrange(0, 1) =~= varint_bytes(10));
        lemma_piece(data, pos, rec, 0, varint_bytes(10));
        lemma_varint_encoded(data, pos, 10);
        let bl: int = lb.len() as int;
        assert(rec.subrange(1, 1 + bl) =~= lb);
        lemma_piece(data, pos, rec, 1, lb);
        lemma_varint_encoded(data, pos + 1, blen);
        let p2 = pos + 1 + lb.len();
        let end = p2 + body.len();
        assert(rec.subrange(1 + bl, rec.len() as int) =~= body);
        lemma_piece(data, pos, rec, 1 + bl, body);
        lemma_file_fields_of_body(data, p2, name, size);
        assert(data.subrange(end, data.len() as int) =~= manifest_bytes(rest)) by {
            assert forall|i: int| 0 <= i < manifest_bytes(rest).len() implies data.subrange(
                end,
                data.len() as int,
            )[i] == manifest_bytes(rest)[i] by {
                assert(whole[rec.len() + i] == manifest_bytes(rest)[i]);
            }
        }
        assert forall|i: int| 0 <= i < rest.len() implies vstd::utf8::encode_utf8(
            #[trigger] rest[i].1,
        ).len() <= 0xFFFF_FFFF by {
            assert(rest[i] == files[i + 1]);
        }
        lemma_entries_of_records(data, end, rest);
        assert(files =~= seq![(size, name)] + rest);
    }
}

/// A manifest written as a list of file mappings (each a name, then a size)
/// is read back as exactly those files, in order; so `parse_manifest` reports
/// their number and the sum of their sizes.
pub proof fn law_manifest_round_trip(files: Seq<(u64, Seq<char>)>)
    requires
        forall|i: int| 0 <= i < files.len() ==> vstd::utf8::encode_utf8(#[trigger] files[i].1).len() <= 0xFFFF_FFFF,
    ensures
        manifest_entries(manifest_bytes(files)) == files,
{
    let data = manifest_bytes(files);
    assert(data.subrange(0, data.len() as int) =~= data);
    lemma_entries_of_records(data, 0, files);
}

/// The size total is the plain sum of the sizes, entry by entry.
proof fn lemma_sizes_total_is_sum(entries: Seq<(u64, Seq<char>)>)
    ensures
        sizes_total(entries) == entries.fold_left(
            0nat,
            |acc: nat, e: (u64, Seq<char>)| acc + e.0 as nat,
        ),
    decreases entries.len(),
{
    if entries.len() > 0 {
        lemma_sizes_total_is_sum(entries.drop_last());
    }
}

/// Totals add up: the total of two lists of entries, one after the other, is
/// the sum of their totals.
pub proof fn law_sizes_total_adds(a: Seq<(u64, Seq<char>)>, b: Seq<(u64, Seq<char>)>)
    ensures
        sizes_total(a + b) == sizes_total(a) + sizes_total(b),
    decreases b.len(),
{
    if b.len() == 0 {
        assert(a + b =~= a);
    } else {
        law_sizes_total_adds(a, b.drop_last());
        assert((a + b).drop_last() =~= a + b.drop_last());
        assert((a + b).last() == b.last());
    }
}

/// The total size that `parse_manifest` reports for a manifest written from a
/// list of files is the sum of every file's size (modulo 2^64), however many
/// files the list holds.
pub proof fn law_manifest_total(files: Seq<(u64, Seq<char>)>)
    requires
        forall|i: int| 0 <= i < files.len() ==> vstd::utf8::encode_utf8(#[trigger] files[i].1).len() <= 0xFFFF_FFFF,
    ensures
        sizes_total(manifest_entries(manifest_bytes(files))) == files.fold_left(
            0nat,
            |acc: nat, f: (u64, Seq<char>)| acc + f.0 as nat,
        ),
        manifest_entries(manifest_bytes(files)).len() == files.len(),
{
    law_manifest_round_trip(files);
    lemma_sizes_total_is_sum(files);
}

/// The names sampled for the platform guess: the name of every platform file
/// is among them, each of them is the name of some entry, and there are at
/// least ten of them (all the entries' names, when there are fewer entries).
pub proof fn law_sampled_names(entries: Seq<(u64, Seq<char>)>)
    ensures
        forall|i: int|
            0 <= i < entries.len() && is_platform_file(entries[i].1)
                ==> sampled_names(entries).contains(#[trigger] entries[i].1),
        forall|j: int|
            0 <= j < sampled_names(entries).len() ==> exists|i: int|
                0 <= i < entries.len() && entries[i].1 == #[trigger] sampled_names(entries)[j],
        sampled_names(entries).len() >= if entries.len() < 10 {
            entries.len() as int
        } else {
            10
        },
    decreases entries.len(),
{
    if entries.len() > 0 {
        let init = entries.drop_last();
        law_sampled_names(init);
        let prev = sampled_names(init);
        let name = entries.last().1;
        let kept = if prev.len() < 10 {
            prev.push(name)
        } else {
            prev
        };
        let cur = sampled_names(entries);
        assert(cur == if is_platform_file(name) {
            kept.push(name)
        } else {
            kept
        });
        assert forall|k: int| 0 <= k < prev.len() implies cur[k] == prev[k] by {}
        assert forall|i: int|
            0 <= i < entries.len() && is_platform_file(entries[i].1)
                implies cur.contains(#[trigger] entries[i].1) by {
            if i < entries.len() - 1 {
                assert(init[i] == entries[i]);
                let k = choose|k: int| 0 <= k < prev.len() && prev[k] == init[i].1;
                assert(cur[k] == prev[k]);
            } else {
                assert(cur[cur.len() - 1] == name);
            }
        }
        assert forall|j: int| 0 <= j < cur.len() implies exists|i: int|
            0 <= i < entries.len() && entries[i].1 == #[trigger] cur[j] by {
            if j < prev.len() {
                assert(cur[j] == prev[j]);
                let i = choose|i: int| 0 <= i < init.len() && init[i].1 == prev[j];
                assert(entries[i] == init[i]);
            } else {
                assert(cur[j] == name);
                assert(entries[entries.len() - 1].1 == name);
            }
        }
    }
}

} // verus!
