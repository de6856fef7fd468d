//! What goes into a digest, and the paths that a cache entry may name.

use vstd::bytes::{spec_u32_to_le_bytes, spec_u64_to_le_bytes, u32_to_le_bytes, u64_to_le_bytes};
use vstd::prelude::*;
use vstd::string::StringExecFns;
use vstd::utf8::encode_utf8;

use crate::cache::error::{CacheError, CacheFault};
use crate::io::{IoError, IoErrorKind};
use crate::path::{
    absolute, below, climbs, components, has_parent, is_absolute, is_below, join_path, join_paths,
    path_components,
};
use crate::text::{decimal, number, texts};

verus! {

/// The SHA-256 digest of some bytes.
pub uninterp spec fn sha256_of(data: Seq<u8>) -> Seq<u8>;

/// The one-shot digest `Digest::digest` of the `sha2` crate's `Sha256`: a
/// function of the bytes alone, which hands out an array of 32 bytes. What
/// those bytes are is left to the crate.
#[verifier::external_body]
pub(crate) fn sha256(data: &Vec<u8>) -> (r: Vec<u8>)
    ensures
        r@ == sha256_of(data@),
        r@.len() == 32,
{
    <sha2::Sha256 as sha2::Digest>::digest(data.as_slice()).to_vec()
}

/// The bytes of a text behind their number, so that texts that follow each
/// other keep their boundaries.
pub open spec fn framed(value: Seq<char>) -> Seq<u8> {
    spec_u64_to_le_bytes(encode_utf8(value).len() as u64) + encode_utf8(value)
}

/// Several framed texts.
pub open spec fn framed_all(values: Seq<Seq<char>>) -> Seq<u8>
    decreases values.len(),
{
    if values.len() == 0 {
        Seq::empty()
    } else {
        framed(values[0]) + framed_all(values.drop_first())
    }
}

/// Several framed texts behind their number.
pub open spec fn framed_list(values: Seq<Seq<char>>) -> Seq<u8> {
    framed(decimal(values.len())) + framed_all(values)
}

/// Bytes behind a label and their number.
pub open spec fn framed_bytes(label: Seq<char>, bytes: Seq<u8>) -> Seq<u8> {
    framed(label) + spec_u64_to_le_bytes(bytes.len() as u64) + bytes
}

/// The bytes of an optional file mode.
pub open spec fn mode_bytes(mode: Option<u32>) -> Seq<u8> {
    match mode {
        Some(mode) => spec_u32_to_le_bytes(mode),
        None => Seq::empty(),
    }
}

/// A file: its label, its size, its mode and its content.
pub open spec fn framed_file(label: Seq<char>, contents: Seq<u8>, mode: Option<u32>) -> Seq<u8> {
    framed(label) + spec_u64_to_le_bytes(contents.len() as u64) + mode_bytes(mode) + contents
}

/// Whether a text is short enough for its length to be written down.
pub open spec fn fits_frame(value: Seq<char>) -> bool {
    encode_utf8(value).len() <= u64::MAX
}

/// A framed text can be told apart from what follows it.
pub proof fn law_framing_is_unambiguous(
    a: Seq<char>,
    b: Seq<char>,
    after_a: Seq<u8>,
    after_b: Seq<u8>,
)
    requires
        fits_frame(a),
        fits_frame(b),
        framed(a) + after_a == framed(b) + after_b,
    ensures
        a == b,
        after_a == after_b,
{
    vstd::bytes::lemma_auto_spec_u64_to_from_le_bytes();
    let left = framed(a) + after_a;
    let right = framed(b) + after_b;
    let head_a = spec_u64_to_le_bytes(encode_utf8(a).len() as u64);
    let head_b = spec_u64_to_le_bytes(encode_utf8(b).len() as u64);
    assert(left.subrange(0, 8) =~= head_a);
    assert(right.subrange(0, 8) =~= head_b);
    let n = encode_utf8(a).len() as int;
    assert(n == encode_utf8(b).len());
    assert(left.subrange(8, 8 + n) =~= encode_utf8(a));
    assert(right.subrange(8, 8 + n) =~= encode_utf8(b));
    vstd::utf8::encode_utf8_decode_utf8(a);
    vstd::utf8::encode_utf8_decode_utf8(b);
    assert(left.skip(8 + n) =~= after_a);
    assert(right.skip(8 + n) =~= after_b);
}

proof fn lemma_framed_all(
    a: Seq<Seq<char>>,
    b: Seq<Seq<char>>,
    after_a: Seq<u8>,
    after_b: Seq<u8>,
)
    requires
        a.len() == b.len(),
        forall|i: int| 0 <= i < a.len() ==> fits_frame(#[trigger] a[i]),
        forall|i: int| 0 <= i < b.len() ==> fits_frame(#[trigger] b[i]),
        framed_all(a) + after_a == framed_all(b) + after_b,
    ensures
        a == b,
        after_a == after_b,
    decreases a.len(),
{
    if a.len() == 0 {
        assert(a =~= b);
        assert(framed_all(a) + after_a =~= after_a);
        assert(framed_all(b) + after_b =~= after_b);
    } else {
        let rest_a = framed_all(a.drop_first()) + after_a;
        let rest_b = framed_all(b.drop_first()) + after_b;
        assert(framed_all(a) + after_a =~= framed(a[0]) + rest_a);
        assert(framed_all(b) + after_b =~= framed(b[0]) + rest_b);
        law_framing_is_unambiguous(a[0], b[0], rest_a, rest_b);
        lemma_framed_all(a.drop_first(), b.drop_first(), after_a, after_b);
        assert(a =~= seq![a[0]] + a.drop_first());
        assert(b =~= seq![b[0]] + b.drop_first());
    }
}

/// Two lists of texts that are hashed alike are the same list: where one value
/// ends and the next begins makes a difference.
pub proof fn law_framing_keeps_boundaries(
    a: Seq<Seq<char>>,
    b: Seq<Seq<char>>,
    after_a: Seq<u8>,
    after_b: Seq<u8>,
)
    requires
        fits_frame(decimal(a.len())),
        fits_frame(decimal(b.len())),
        forall|i: int| 0 <= i < a.len() ==> fits_frame(#[trigger] a[i]),
        forall|i: int| 0 <= i < b.len() ==> fits_frame(#[trigger] b[i]),
        framed_list(a) + after_a == framed_list(b) + after_b,
    ensures
        a == b,
        after_a == after_b,
{
    assert(framed_list(a) + after_a =~= framed(decimal(a.len())) + (framed_all(a) + after_a));
    assert(framed_list(b) + after_b =~= framed(decimal(b.len())) + (framed_all(b) + after_b));
    law_framing_is_unambiguous(
        decimal(a.len()),
        decimal(b.len()),
        framed_all(a) + after_a,
        framed_all(b) + after_b,
    );
    crate::text::law_decimal_round_trip(a.len());
    crate::text::law_decimal_round_trip(b.len());
    lemma_framed_all(a, b, after_a, after_b);
}

/// A file can be told apart from what follows it: another label, size, mode
/// or content is hashed differently.
pub proof fn law_files_are_told_apart(
    label_a: Seq<char>,
    label_b: Seq<char>,
    a: Seq<u8>,
    b: Seq<u8>,
    mode_a: Option<u32>,
    mode_b: Option<u32>,
    after_a: Seq<u8>,
    after_b: Seq<u8>,
)
    requires
        fits_frame(label_a),
        fits_frame(label_b),
        a.len() <= u64::MAX,
        b.len() <= u64::MAX,
        mode_a is Some == mode_b is Some,
        framed_file(label_a, a, mode_a) + after_a == framed_file(label_b, b, mode_b) + after_b,
    ensures
        label_a == label_b,
        a == b,
        mode_a == mode_b,
        after_a == after_b,
{
    vstd::bytes::lemma_auto_spec_u64_to_from_le_bytes();
    vstd::bytes::lemma_auto_spec_u32_to_from_le_bytes();
    let size_a = spec_u64_to_le_bytes(a.len() as u64);
    let size_b = spec_u64_to_le_bytes(b.len() as u64);
    let rest_a = size_a + mode_bytes(mode_a) + a + after_a;
    let rest_b = size_b + mode_bytes(mode_b) + b + after_b;
    assert(framed_file(label_a, a, mode_a) + after_a =~= framed(label_a) + rest_a);
    assert(framed_file(label_b, b, mode_b) + after_b =~= framed(label_b) + rest_b);
    law_framing_is_unambiguous(label_a, label_b, rest_a, rest_b);
    assert(rest_a.subrange(0, 8) =~= size_a);
    assert(rest_b.subrange(0, 8) =~= size_b);
    assert(a.len() == b.len());
    let m = mode_bytes(mode_a).len() as int;
    assert(m == mode_bytes(mode_b).len());
    assert(rest_a.subrange(8, 8 + m) =~= mode_bytes(mode_a));
    assert(rest_b.subrange(8, 8 + m) =~= mode_bytes(mode_b));
    let n = a.len() as int;
    assert(rest_a.subrange(8 + m, 8 + m + n) =~= a);
    assert(rest_b.subrange(8 + m, 8 + m + n) =~= b);
    assert(rest_a.skip(8 + m + n) =~= after_a);
    assert(rest_b.skip(8 + m + n) =~= after_b);
}

/// The bytes that a digest is taken of.
#[derive(Debug)]
pub struct Transcript {
    pub bytes: Vec<u8>,
}

impl Transcript {
    pub fn new() -> (r: Transcript)
        ensures
            r.bytes@ == Seq::<u8>::empty(),
    {
        Transcript { bytes: Vec::new() }
    }

    fn update(&mut self, more: Vec<u8>)
        ensures
            final(self).bytes@ == old(self).bytes@ + more@,
    {
        let mut more = more;
        self.bytes.append(&mut more);
    }

    /// Take in a text.
    pub fn hash_string(&mut self, value: &str)
        ensures
            final(self).bytes@ == old(self).bytes@ + framed(value@),
    {
        let bytes = value.as_bytes_vec();
        self.update(u64_to_le_bytes(bytes.len() as u64));
        self.update(bytes);
        assert(self.bytes@ =~= old(self).bytes@ + framed(value@));
    }

    /// Take in a list of texts.
    pub fn hash_strings(&mut self, values: &Vec<String>)
        ensures
            final(self).bytes@ == old(self).bytes@ + framed_list(texts(values@)),
    {
        let ghost all = texts(values@);
        let ghost before = self.bytes@;
        self.hash_string(number(values.len() as u128).as_str());
        let mut i: usize = 0;
        assert(all.skip(0) =~= all);
        assert(before + framed_list(all) =~= self.bytes@ + framed_all(all.skip(0)));
        while i < values.len()
            invariant
                i <= values@.len(),
                all == texts(values@),
                before + framed_list(all) == self.bytes@ + framed_all(all.skip(i as int)),
            decreases values.len() - i,
        {
            let ghost now = self.bytes@;
            assert(all.skip(i as int)[0] == values[i as int]@);
            assert(all.skip(i as int).drop_first() =~= all.skip(i as int + 1));
            self.hash_string(values[i].as_str());
            assert(now + framed_all(all.skip(i as int)) =~= self.bytes@ + framed_all(
                all.skip(i as int + 1),
            ));
            i += 1;
        }
        assert(self.bytes@ + framed_all(all.skip(i as int)) =~= self.bytes@);
    }

    /// Take in bytes under a label.
    pub fn hash_bytes(&mut self, label: &str, bytes: &Vec<u8>)
        ensures
            final(self).bytes@ == old(self).bytes@ + framed_bytes(label@, bytes@),
    {
        self.hash_string(label);
        self.update(u64_to_le_bytes(bytes.len() as u64));
        self.update(copy_bytes(bytes));
        assert(self.bytes@ =~= old(self).bytes@ + framed_bytes(label@, bytes@));
    }

    /// Take in a file.
    pub fn hash_file(&mut self, label: &str, contents: &Vec<u8>, mode: Option<u32>)
        ensures
            final(self).bytes@ == old(self).bytes@ + framed_file(label@, contents@, mode),
    {
        self.hash_string(label);
        self.update(u64_to_le_bytes(contents.len() as u64));
        if let Some(mode) = mode {
            self.update(u32_to_le_bytes(mode));
        }
        self.update(copy_bytes(contents));
        assert(self.bytes@ =~= old(self).bytes@ + framed_file(label@, contents@, mode));
    }

    /// The digest of everything taken in, in hexadecimal digits.
    pub fn finish(&self) -> (r: String)
        ensures
            r@ == hex(sha256_of(self.bytes@)),
    {
        hex_digest(&sha256(&self.bytes))
    }
}

/// A copy of some bytes.
pub fn copy_bytes(bytes: &Vec<u8>) -> (r: Vec<u8>)
    ensures
        r@ == bytes@,
{
    let mut out: Vec<u8> = Vec::new();
    let mut i: usize = 0;
    while i < bytes.len()
        invariant
            i <= bytes@.len(),
            out@ == bytes@.take(i as int),
        decreases bytes.len() - i,
    {
        out.push(bytes[i]);
        i += 1;
        assert(out@ =~= bytes@.take(i as int));
    }
    assert(out@ =~= bytes@);
    out
}

/// A hexadecimal digit.
pub open spec fn hex_digit(d: nat) -> char
    recommends
        d < 16,
{
    if d < 10 {
        (48 + d) as char
    } else {
        (87 + d) as char
    }
}

/// Bytes in lower-case hexadecimal digits, two for each.
pub open spec fn hex(bytes: Seq<u8>) -> Seq<char>
    decreases bytes.len(),
{
    if bytes.len() == 0 {
        Seq::empty()
    } else {
        hex(bytes.drop_last()).push(hex_digit((bytes.last() / 16) as nat)).push(
            hex_digit((bytes.last() % 16) as nat),
        )
    }
}

/// Different bytes have different digits.
pub proof fn law_hex_is_unambiguous(a: Seq<u8>, b: Seq<u8>)
    requires
        hex(a) == hex(b),
    ensures
        a == b,
    decreases a.len(),
{
    lemma_hex_length(a);
    lemma_hex_length(b);
    if a.len() > 0 {
        let x = hex(a);
        let y = hex(b);
        let n = x.len() as int;
        assert(x.subrange(0, n - 2) =~= hex(a.drop_last()));
        assert(y.subrange(0, n - 2) =~= hex(b.drop_last()));
        law_hex_is_unambiguous(a.drop_last(), b.drop_last());
        let hi_a = (a.last() / 16) as nat;
        let hi_b = (b.last() / 16) as nat;
        let lo_a = (a.last() % 16) as nat;
        let lo_b = (b.last() % 16) as nat;
        assert(x[n - 2] == hex_digit(hi_a) && y[n - 2] == hex_digit(hi_b));
        assert(x[n - 1] == hex_digit(lo_a) && y[n - 1] == hex_digit(lo_b));
        assert(hex_digit(hi_a) as u32 == hex_digit(hi_b) as u32);
        assert(hex_digit(lo_a) as u32 == hex_digit(lo_b) as u32);
        assert(hi_a == hi_b && lo_a == lo_b);
        assert(a.last() == b.last());
        assert(a =~= a.drop_last().push(a.last()));
        assert(b =~= b.drop_last().push(b.last()));
    } else {
        assert(a =~= b);
    }
}

proof fn lemma_hex_length(bytes: Seq<u8>)
    ensures
        hex(bytes).len() == 2 * bytes.len(),
    decreases bytes.len(),
{
    if bytes.len() > 0 {
        lemma_hex_length(bytes.drop_last());
    }
}

fn hex_char(d: u8) -> (r: char)
    requires
        d < 16,
    ensures
        r == hex_digit(d as nat),
{
    if d < 10 {
        (48 + d) as char
    } else {
        (87 + d) as char
    }
}

/// Bytes in lower-case hexadecimal digits, two for each.
pub fn hex_digest(digest: &Vec<u8>) -> (r: String)
    ensures
        r@ == hex(digest@),
{
    let mut out = String::new();
    let mut i: usize = 0;
    while i < digest.len()
        invariant
            i <= digest@.len(),
            out@ == hex(digest@.take(i as int)),
        decreases digest.len() - i,
    {
        let ghost next = digest@.take(i as int + 1);
        assert(next.drop_last() =~= digest@.take(i as int));
        let byte: u8 = digest[i];
        out.push(hex_char(byte / 16));
        out.push(hex_char(byte % 16));
        i += 1;
    }
    assert(digest@.take(i as int) =~= digest@);
    out
}

/// The digest of a file with the given content, in hexadecimal digits.
pub fn file_digest(contents: &Vec<u8>) -> (r: String)
    ensures
        r@ == hex(sha256_of(contents@)),
{
    hex_digest(&sha256(contents))
}

/// Whether a cache entry may name `path` as an output: it stays below the
/// directory that it is seen from.
pub open spec fn is_safe_path(path: Seq<char>) -> bool {
    path.len() > 0 && !is_absolute(path) && !has_parent(path)
}

/// The failure for an output path that leads elsewhere.
pub open spec fn unsafe_path(path: Seq<char>) -> CacheFault {
    CacheFault::Invalid {
        message: "cache entry contains unsafe output path '"@ + path + "'"@,
    }
}

/// Accept nested relative names only.
pub fn validate_cached_path(path: &str) -> (r: Result<String, CacheError>)
    ensures
        match r {
            Ok(same) => is_safe_path(path@) && same@ == path@,
            Err(e) => !is_safe_path(path@) && e@ == unsafe_path(path@),
        },
{
    if crate::text::chars_of(path).len() == 0 || absolute(path) || climbs(path) {
        let mut message = "cache entry contains unsafe output path '".to_owned();
        message.append(path);
        message.append("'");
        return Err(CacheError::Invalid { message });
    }
    Ok(path.to_owned())
}

/// The failure for a path outside the project.
pub open spec fn escaping_path(path: Seq<char>) -> CacheFault {
    CacheFault::Invalid { message: "cache path escapes project root: "@ + path }
}

/// Accept paths below `root` only.
pub fn ensure_inside(root: &str, path: &str) -> (r: Result<(), CacheError>)
    ensures
        match r {
            Ok(_) => is_below(path@, root@),
            Err(e) => !is_below(path@, root@) && e@ == escaping_path(path@),
        },
{
    if below(path, root) {
        return Ok(());
    }
    let mut message = "cache path escapes project root: ".to_owned();
    message.append(path);
    Err(CacheError::Invalid { message })
}

/// What is wrong with the way from `current` along `parts`, where `probes`
/// says of each step whether it is a symbolic link. The way ends where a step
/// is missing, or where `probes` does.
pub open spec fn symlink_on_way(
    current: Seq<char>,
    parts: Seq<Seq<char>>,
    probes: Seq<Result<bool, IoError>>,
) -> Option<CacheFault>
    decreases parts.len(),
{
    if parts.len() == 0 || probes.len() == 0 {
        None
    } else {
        let here = join_path(current, parts[0]);
        match probes[0] {
            Err(error) => if error.kind == IoErrorKind::NotFound {
                None
            } else {
                Some(CacheFault::Io { path: here, source: error@ })
            },
            Ok(true) => Some(
                CacheFault::Invalid {
                    message: "cache output restoration refuses symlink component "@ + here,
                },
            ),
            Ok(false) => symlink_on_way(here, parts.drop_first(), probes.drop_first()),
        }
    }
}

/// What is wrong with restoring to `destination`.
pub open spec fn symlink_problem(
    root: Seq<char>,
    destination: Seq<char>,
    probes: Seq<Result<bool, IoError>>,
) -> Option<CacheFault> {
    if !is_below(destination, root) {
        Some(escaping_path(destination))
    } else {
        symlink_on_way(root, components(destination).skip(components(root).len() as int), probes)
    }
}

/// The steps from `root` down to `destination`, each as a path.
pub fn component_paths(root: &str, destination: &str) -> (r: Vec<String>)
    requires
        is_below(destination@, root@),
    ensures
        texts(r@) == step_paths(
            root@,
            components(destination@).skip(components(root@).len() as int),
        ),
{
    let outer = path_components(root);
    let inner = path_components(destination);
    let ghost parts = components(destination@).skip(components(root@).len() as int);
    assert(outer@.len() == components(root@).len());
    assert(inner@.len() == components(destination@).len());
    let mut out: Vec<String> = Vec::new();
    let mut current = root.to_owned();
    let mut i: usize = outer.len();
    assert(parts.skip(0) =~= parts);
    assert(texts(out@) + step_paths(current@, parts) =~= step_paths(root@, parts));
    while i < inner.len()
        invariant
            outer@.len() <= i <= inner@.len(),
            outer@.len() == components(root@).len(),
            texts(inner@) == components(destination@),
            parts == components(destination@).skip(components(root@).len() as int),
            texts(out@) + step_paths(current@, parts.skip(i - outer@.len())) == step_paths(
                root@,
                parts,
            ),
        decreases inner.len() - i,
    {
        let ghost left = parts.skip(i - outer@.len());
        let ghost before = texts(out@);
        assert(components(destination@)[i as int] == inner[i as int]@);
        assert(left[0] == inner[i as int]@);
        assert(left.drop_first() =~= parts.skip(i + 1 - outer@.len()));
        current = join_paths(current.as_str(), inner[i].as_str());
        out.push(current.clone());
        assert(texts(out@) =~= before.push(current@));
        assert(before + (seq![current@] + step_paths(current@, left.drop_first())) =~= texts(out@)
            + step_paths(current@, left.drop_first()));
        i += 1;
    }
    assert(texts(out@) + step_paths(current@, parts.skip(i - outer@.len())) =~= texts(out@));
    out
}

/// The paths that lead from `current` along `parts`.
pub open spec fn step_paths(current: Seq<char>, parts: Seq<Seq<char>>) -> Seq<Seq<char>>
    decreases parts.len(),
{
    if parts.len() == 0 {
        Seq::empty()
    } else {
        seq![join_path(current, parts[0])] + step_paths(
            join_path(current, parts[0]),
            parts.drop_first(),
        )
    }
}

/// Reject cache output restoration through any symlink component from the
/// project root down to (and including) the destination path.
pub fn ensure_no_symlink_components(
    root: &str,
    destination: &str,
    probes: &Vec<Result<bool, IoError>>,
) -> (r: Result<(), CacheError>)
    ensures
        match r {
            Ok(_) => symlink_problem(root@, destination@, probes@) is None,
            Err(e) => symlink_problem(root@, destination@, probes@) == Some(e@),
        },
{
    match ensure_inside(root, destination) {
        Err(e) => {
            return Err(e);
        },
        Ok(_) => {},
    }
    let outer = path_components(root);
    let inner = path_components(destination);
    let ghost parts = components(destination@).skip(components(root@).len() as int);
    assert(outer@.len() == components(root@).len());
    assert(inner@.len() == components(destination@).len());
    let mut current = root.to_owned();
    let mut i: usize = 0;
    assert(parts.skip(0) =~= parts);
    assert(probes@.skip(0) =~= probes@);
    while i < probes.len() && i < inner.len() - outer.len()
        invariant
            i <= probes@.len(),
            outer@.len() <= inner@.len(),
            i <= inner@.len() - outer@.len(),
            outer@.len() == components(root@).len(),
            texts(inner@) == components(destination@),
            parts == components(destination@).skip(components(root@).len() as int),
            symlink_on_way(root@, parts, probes@) == symlink_on_way(
                current@,
                parts.skip(i as int),
                probes@.skip(i as int),
            ),
            symlink_problem(root@, destination@, probes@) == symlink_on_way(root@, parts, probes@),
        decreases probes.len() - i,
    {
        let ghost left = parts.skip(i as int);
        let ghost seen = probes@.skip(i as int);
        assert(components(destination@)[outer@.len() + i] == inner[outer@.len() + i]@);
        assert(left[0] == inner[outer@.len() + i]@);
        assert(left.drop_first() =~= parts.skip(i + 1));
        assert(seen[0] == probes@[i as int]);
        assert(seen.drop_first() =~= probes@.skip(i + 1));
        current = join_paths(current.as_str(), inner[outer.len() + i].as_str());
        match &probes[i] {
            Err(error) => {
                if error.kind == IoErrorKind::NotFound {
                    return Ok(());
                }
                return Err(CacheError::Io { path: current, source: error.copy() });
            },
            Ok(link) => {
                if *link {
                    let mut message = "cache output restoration refuses symlink component ".to_owned();
                    message.append(current.as_str());
                    return Err(CacheError::Invalid { message });
                }
            },
        }
        i += 1;
    }
    Ok(())
}

} // verus!
