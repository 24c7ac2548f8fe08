//! Names of the artifacts that sessions store.
//!
//! A session stores its artifact as
//! `{file name}_encoded_{server address, ':' written as '_'}.{extension}`,
//! where the file name is the last component of the source's path and the
//! extension follows from what the artifact's first bytes show it to be. The name is a function of the file name, the server address and the
//! artifact's format alone, so concurrent sessions need no coordination to
//! stay out of each other's way; the laws at the end of this file say exactly
//! when two sessions write to different names.

use crate::paths::{file_name_of, path_file_name};
use vstd::prelude::*;
use vstd::string::*;

verus! {

/// What an artifact is, as far as its first bytes tell.
#[derive(Clone, Copy, Debug, PartialEq, Eq, Structural)]
pub enum ArtifactFormat {
    /// The artifact starts with the eight-byte PNG signature.
    Png,
    /// The artifact starts with the JPEG start-of-image marker.
    Jpeg,
    /// Anything else, the empty artifact included.
    Unknown,
}

/// The eight bytes every PNG file starts with.
pub open spec fn png_signature() -> Seq<u8> {
    seq![137u8, 80u8, 78u8, 71u8, 13u8, 10u8, 26u8, 10u8]
}

/// The three bytes every JPEG file starts with.
pub open spec fn jpeg_signature() -> Seq<u8> {
    seq![255u8, 216u8, 255u8]
}

/// The format that the first bytes of `bytes` show.
pub open spec fn format_of(bytes: Seq<u8>) -> ArtifactFormat {
    if png_signature().is_prefix_of(bytes) {
        ArtifactFormat::Png
    } else if jpeg_signature().is_prefix_of(bytes) {
        ArtifactFormat::Jpeg
    } else {
        ArtifactFormat::Unknown
    }
}

/// Tells an artifact's format from its first bytes.
pub fn detect_format(bytes: &[u8]) -> (format: ArtifactFormat)
    ensures
        format == format_of(bytes@),
{
    if bytes.len() >= 8 && bytes[0] == 137u8 && bytes[1] == 80u8 && bytes[2] == 78u8 && bytes[3]
        == 71u8 && bytes[4] == 13u8 && bytes[5] == 10u8 && bytes[6] == 26u8 && bytes[7] == 10u8 {
        assert(bytes@.subrange(0, 8) =~= png_signature());
        ArtifactFormat::Png
    } else if bytes.len() >= 3 && bytes[0] == 255u8 && bytes[1] == 216u8 && bytes[2] == 255u8 {
        assert(bytes@.subrange(0, 3) =~= jpeg_signature());
        assert(!png_signature().is_prefix_of(bytes@)) by {
            if bytes@.len() >= 8 {
                assert(bytes@.subrange(0, 8)[0] == bytes@[0]);
            }
        }
        ArtifactFormat::Jpeg
    } else {
        assert(!png_signature().is_prefix_of(bytes@)) by {
            if bytes@.len() >= 8 {
                let head = bytes@.subrange(0, 8);
                assert(head[0] == bytes@[0] && head[1] == bytes@[1] && head[2] == bytes@[2]
                    && head[3] == bytes@[3] && head[4] == bytes@[4] && head[5] == bytes@[5]
                    && head[6] == bytes@[6] && head[7] == bytes@[7]);
            }
        }
        assert(!jpeg_signature().is_prefix_of(bytes@)) by {
            if bytes@.len() >= 3 {
                let head = bytes@.subrange(0, 3);
                assert(head[0] == bytes@[0] && head[1] == bytes@[1] && head[2] == bytes@[2]);
            }
        }
        ArtifactFormat::Unknown
    }
}

impl ArtifactFormat {
    /// The file extension that goes with the format, without the dot.
    pub open spec fn extension_chars(self) -> Seq<char> {
        match self {
            ArtifactFormat::Png => "png"@,
            ArtifactFormat::Jpeg => "jpg"@,
            ArtifactFormat::Unknown => "bin"@,
        }
    }

    /// The file extension that goes with the format, without the dot.
    pub fn extension(&self) -> (ext: &'static str)
        ensures
            ext@ == self.extension_chars(),
    {
        match self {
            ArtifactFormat::Png => "png",
            ArtifactFormat::Jpeg => "jpg",
            ArtifactFormat::Unknown => "bin",
        }
    }
}

/// What a server address becomes inside a file name: every `:` replaced by
/// `_`, every other character kept.
pub open spec fn sanitized(addr: Seq<char>) -> Seq<char> {
    Seq::new(addr.len(), |i: int| if addr[i] == ':' { '_' } else { addr[i] })
}

/// What stands between the file name and the server address.
pub open spec fn marker() -> Seq<char> {
    "_encoded_"@
}

/// An artifact's name up to its extension.
pub open spec fn encoded_stem(file_name: Seq<char>, server_addr: Seq<char>) -> Seq<char> {
    file_name + marker() + sanitized(server_addr)
}

/// An artifact's name.
pub open spec fn encoded_filename(
    file_name: Seq<char>,
    server_addr: Seq<char>,
    format: ArtifactFormat,
) -> Seq<char> {
    encoded_stem(file_name, server_addr) + "."@ + format.extension_chars()
}

/// Replaces every `:` of a server address by `_`.
pub fn sanitize_server_addr(addr: &str) -> (out: String)
    ensures
        out@ == sanitized(addr@),
{
    let mut out = String::new();
    for c in it: addr.chars()
        invariant
            it.seq() == addr@,
            out@ == sanitized(addr@.subrange(0, it.index() as int)),
    {
        if c == ':' {
            out.push('_');
        } else {
            out.push(c);
        }
        assert(out@ =~= sanitized(addr@.subrange(0, it.index() + 1)));
    }
    assert(addr@.subrange(0, addr@.len() as int) =~= addr@);
    out
}

/// The name under which the artifact that `server_addr` made of the file at
/// `source_path` is stored, given the artifact's format. Only the last
/// component of the path goes into the name, and the path must have one.
pub fn create_encoded_filename(
    source_path: &str,
    server_addr: &str,
    format: ArtifactFormat,
) -> (name: String)
    requires
        path_file_name(source_path@) is Some,
    ensures
        name@ == encoded_filename(path_file_name(source_path@).unwrap(), server_addr@, format),
{
    match file_name_of(source_path) {
        Some(file_name) => encoded_filename_for(file_name.as_str(), server_addr, format),
        None => {
            assert(false);
            String::new()
        },
    }
}

/// The name under which the artifact that `server_addr` made of the file at
/// `source_path` is stored, or nothing for a path without a last
/// component.
pub fn try_create_encoded_filename(
    source_path: &str,
    server_addr: &str,
    format: ArtifactFormat,
) -> (name: Option<String>)
    ensures
        match name {
            Some(n) => path_file_name(source_path@) is Some && n@ == encoded_filename(
                path_file_name(source_path@).unwrap(),
                server_addr@,
                format,
            ),
            None => path_file_name(source_path@) is None,
        },
{
    match file_name_of(source_path) {
        Some(_) => Some(create_encoded_filename(source_path, server_addr, format)),
        None => None,
    }
}

/// The name under which the artifact that `server_addr` made of the file
/// named `file_name` is stored, given the artifact's format.
pub fn encoded_filename_for(file_name: &str, server_addr: &str, format: ArtifactFormat) -> (name:
    String)
    ensures
        name@ == encoded_filename(file_name@, server_addr@, format),
{
    let mut name = file_name.to_owned();
    let server = sanitize_server_addr(server_addr);
    name.append("_encoded_");
    name.append(server.as_str());
    name.append(".");
    name.append(format.extension());
    name
}

/// Whether `needle` stands somewhere inside `hay`.
pub open spec fn occurs_in(needle: Seq<char>, hay: Seq<char>) -> bool {
    exists|at: int|
        0 <= at && at + needle.len() <= hay.len() && #[trigger] hay.subrange(
            at,
            at + needle.len(),
        ) == needle
}

/// Whether the marker and the server address of one session spell out the
/// rest of another session's longer file name, a marker and that session's
/// server address: `short_file` begins `long_file`, and what follows
/// `short_file` in the first stem is what follows it in the second.
pub open spec fn spells_out(
    short_file: Seq<char>,
    short_server: Seq<char>,
    long_file: Seq<char>,
    long_server: Seq<char>,
) -> bool {
    &&& short_file.len() < long_file.len()
    &&& long_file.subrange(0, short_file.len() as int) == short_file
    &&& marker() + sanitized(short_server) == long_file.subrange(
        short_file.len() as int,
        long_file.len() as int,
    ) + marker() + sanitized(long_server)
}

/// The characters of a stem: the file name, then the marker, then the
/// sanitized server address.
proof fn lemma_stem_layout(file: Seq<char>, server: Seq<char>)
    ensures
        marker().len() == 9,
        encoded_stem(file, server).len() == file.len() + 9 + sanitized(server).len(),
        forall|i: int|
            0 <= i < file.len() ==> #[trigger] encoded_stem(file, server)[i] == file[i],
        forall|k: int|
            0 <= k < 9 ==> #[trigger] encoded_stem(file, server)[file.len() + k] == marker()[k],
        forall|j: int|
            0 <= j < sanitized(server).len() ==> #[trigger] encoded_stem(file, server)[file.len()
                + 9 + j] == sanitized(server)[j],
{
    reveal_strlit("_encoded_");
}

/// The marker's characters: it begins with `_encoded` and ends with
/// `encoded_`, and `_` stands at its two ends only.
proof fn lemma_marker_chars()
    ensures
        marker().len() == 9,
        "_encoded"@.len() == 8,
        "encoded_"@.len() == 8,
        forall|k: int| 0 <= k < 8 ==> #[trigger] marker()[k] == "_encoded"@[k],
        forall|k: int| 0 <= k < 8 ==> marker()[k + 1] == #[trigger] "encoded_"@[k],
        forall|k: int| 0 < k < 8 ==> #[trigger] marker()[k] != '_',
        marker()[0] == '_',
{
    reveal_strlit("_encoded_");
    reveal_strlit("_encoded");
    reveal_strlit("encoded_");
}

/// Server addresses without `_` stay different once sanitized.
pub proof fn lemma_sanitized_injective(server_a: Seq<char>, server_b: Seq<char>)
    requires
        !server_a.contains('_'),
        !server_b.contains('_'),
        server_a != server_b,
    ensures
        sanitized(server_a) != sanitized(server_b),
{
    if sanitized(server_a) == sanitized(server_b) {
        assert(server_a.len() == sanitized(server_a).len());
        assert(server_b.len() == sanitized(server_b).len());
        assert forall|i: int| 0 <= i < server_a.len() implies server_a[i] == server_b[i] by {
            assert(sanitized(server_a)[i] == sanitized(server_b)[i]);
            assert(server_a.contains(server_a[i]));
            assert(server_b.contains(server_b[i]));
        }
        assert(server_a =~= server_b);
    }
}

/// Two artifacts have the same name exactly when they have the same stem and
/// the same format.
pub proof fn lemma_filename_determines_stem(
    file_a: Seq<char>,
    server_a: Seq<char>,
    format_a: ArtifactFormat,
    file_b: Seq<char>,
    server_b: Seq<char>,
    format_b: ArtifactFormat,
)
    ensures
        encoded_filename(file_a, server_a, format_a) == encoded_filename(
            file_b,
            server_b,
            format_b,
        ) <==> encoded_stem(file_a, server_a) == encoded_stem(file_b, server_b) && format_a
            == format_b,
{
    reveal_strlit("png");
    reveal_strlit("jpg");
    reveal_strlit("bin");
    reveal_strlit(".");
    let stem_a = encoded_stem(file_a, server_a);
    let stem_b = encoded_stem(file_b, server_b);
    let name_a = encoded_filename(file_a, server_a, format_a);
    let name_b = encoded_filename(file_b, server_b, format_b);
    if name_a == name_b {
        assert(format_a.extension_chars().len() == 3);
        assert(format_b.extension_chars().len() == 3);
        assert(name_a.len() == stem_a.len() + 4);
        assert(name_b.len() == stem_b.len() + 4);
        assert(name_a.subrange(0, stem_a.len() as int) =~= stem_a);
        assert(name_b.subrange(0, stem_b.len() as int) =~= stem_b);
        assert(name_a[stem_a.len() as int + 1] == format_a.extension_chars()[0]);
        assert(name_b[stem_b.len() as int + 1] == format_b.extension_chars()[0]);
    }
}

/// Two sessions have the same stem exactly when they have the same file name
/// and the same sanitized server address, or when the shorter name's marker
/// and server address spell out the rest of the longer name.
pub proof fn lemma_stem_collisions(
    file_a: Seq<char>,
    server_a: Seq<char>,
    file_b: Seq<char>,
    server_b: Seq<char>,
)
    ensures
        encoded_stem(file_a, server_a) == encoded_stem(file_b, server_b) <==> {
            ||| file_a == file_b && sanitized(server_a) == sanitized(server_b)
            ||| spells_out(file_a, server_a, file_b, server_b)
            ||| spells_out(file_b, server_b, file_a, server_a)
        },
{
    let stem_a = encoded_stem(file_a, server_a);
    let stem_b = encoded_stem(file_b, server_b);
    let la = file_a.len() as int;
    let lb = file_b.len() as int;
    lemma_stem_layout(file_a, server_a);
    lemma_stem_layout(file_b, server_b);
    if stem_a == stem_b {
        if la == lb {
            assert(stem_a.subrange(0, la) =~= file_a);
            assert(stem_b.subrange(0, la) =~= file_b);
            assert(stem_a.subrange(la + 9, stem_a.len() as int) =~= sanitized(server_a));
            assert(stem_b.subrange(la + 9, stem_b.len() as int) =~= sanitized(server_b));
        } else if la < lb {
            assert forall|i: int| 0 <= i < la implies file_b[i] == file_a[i] by {
                assert(stem_a[i] == file_a[i]);
                assert(stem_b[i] == file_b[i]);
            }
            assert(file_b.subrange(0, la) =~= file_a);
            assert(marker() + sanitized(server_a) =~= stem_a.subrange(la, stem_a.len() as int));
            assert(file_b.subrange(la, lb) + marker() + sanitized(server_b) =~= stem_b.subrange(
                la,
                stem_b.len() as int,
            ));
        } else {
            assert forall|i: int| 0 <= i < lb implies file_a[i] == file_b[i] by {
                assert(stem_a[i] == file_a[i]);
                assert(stem_b[i] == file_b[i]);
            }
            assert(file_a.subrange(0, lb) =~= file_b);
            assert(marker() + sanitized(server_b) =~= stem_b.subrange(lb, stem_b.len() as int));
            assert(file_a.subrange(lb, la) + marker() + sanitized(server_a) =~= stem_a.subrange(
                lb,
                stem_a.len() as int,
            ));
        }
    }
    if spells_out(file_a, server_a, file_b, server_b) {
        assert(file_b =~= file_a + file_b.subrange(la, lb));
        assert(stem_b =~= file_a + (file_b.subrange(la, lb) + marker() + sanitized(server_b)));
        assert(stem_a =~= file_a + (marker() + sanitized(server_a)));
    }
    if spells_out(file_b, server_b, file_a, server_a) {
        assert(file_a =~= file_b + file_a.subrange(lb, la));
        assert(stem_a =~= file_b + (file_a.subrange(lb, la) + marker() + sanitized(server_a)));
        assert(stem_b =~= file_b + (marker() + sanitized(server_b)));
    }
}

/// The names of two sessions that differ in the file name or in the
/// sanitized server address are different, whatever the formats of the two
/// artifacts, unless the shorter name's marker and server address spell out
/// the rest of the longer name.
///
/// In particular two servers that handle the same file write to different
/// names as soon as their sanitized addresses differ, and so do two sessions
/// whose file names differ and are equally long.
pub proof fn lemma_encoded_filenames_distinct(
    file_a: Seq<char>,
    server_a: Seq<char>,
    format_a: ArtifactFormat,
    file_b: Seq<char>,
    server_b: Seq<char>,
    format_b: ArtifactFormat,
)
    requires
        file_a != file_b || sanitized(server_a) != sanitized(server_b),
        !spells_out(file_a, server_a, file_b, server_b),
        !spells_out(file_b, server_b, file_a, server_a),
    ensures
        encoded_filename(file_a, server_a, format_a) != encoded_filename(
            file_b,
            server_b,
            format_b,
        ),
{
    lemma_filename_determines_stem(file_a, server_a, format_a, file_b, server_b, format_b);
    lemma_stem_collisions(file_a, server_a, file_b, server_b);
}

/// A name can only be spelled out by another session's marker and server
/// address if it holds `_encoded` and that address, once sanitized, holds
/// `encoded_`. So file names without `_encoded`, or server addresses without
/// `encoded:` and `encoded_`, are safe.
pub proof fn lemma_spelling_out_needs_marker(
    short_file: Seq<char>,
    short_server: Seq<char>,
    long_file: Seq<char>,
    long_server: Seq<char>,
)
    requires
        spells_out(short_file, short_server, long_file, long_server),
    ensures
        occurs_in("_encoded"@, long_file),
        occurs_in("encoded_"@, sanitized(short_server)),
{
    lemma_marker_chars();
    let ra = sanitized(short_server);
    let la = short_file.len() as int;
    let lb = long_file.len() as int;
    let gap = lb - la;
    let rest = long_file.subrange(la, lb);
    let left = marker() + ra;
    let right = rest + marker() + sanitized(long_server);
    assert(left.len() == right.len());
    assert forall|k: int| 0 <= k < 9 implies left[k] == marker()[k] by {}
    assert forall|k: int| 0 <= k < 9 implies right[gap + k] == marker()[k] by {}
    assert forall|i: int| 0 <= i < gap implies right[i] == long_file[la + i] by {}
    if gap < 8 {
        assert(left[gap] == marker()[gap]);
        assert(right[gap + 0] == marker()[0]);
        assert(false);
    }
    let head = long_file.subrange(la, la + 8);
    assert(head =~= "_encoded"@) by {
        assert forall|k: int| 0 <= k < 8 implies head[k] == "_encoded"@[k] by {
            assert(left[k] == marker()[k]);
            assert(right[k] == long_file[la + k]);
        }
    }
    assert(long_file.subrange(la, la + "_encoded"@.len()) == "_encoded"@);
    let tail = ra.subrange(gap - 8, gap - 8 + 8);
    assert(tail =~= "encoded_"@) by {
        assert forall|k: int| 0 <= k < 8 implies tail[k] == "encoded_"@[k] by {
            assert(left[9 + (gap - 8 + k)] == ra[gap - 8 + k]);
            assert(right[gap + (k + 1)] == marker()[k + 1]);
        }
    }
    assert(ra.subrange(gap - 8, gap - 8 + "encoded_"@.len()) == "encoded_"@);
}

/// Two servers whose addresses hold no `_` and that handle the same file
/// write to different names.
pub proof fn lemma_same_file_different_servers(
    file: Seq<char>,
    server_a: Seq<char>,
    format_a: ArtifactFormat,
    server_b: Seq<char>,
    format_b: ArtifactFormat,
)
    requires
        server_a != server_b,
        !server_a.contains('_'),
        !server_b.contains('_'),
    ensures
        encoded_filename(file, server_a, format_a) != encoded_filename(file, server_b, format_b),
{
    lemma_sanitized_injective(server_a, server_b);
    lemma_encoded_filenames_distinct(file, server_a, format_a, file, server_b, format_b);
}

/// Two files with different names, neither of which holds `_encoded`, never
/// share a name, whatever the servers.
pub proof fn lemma_different_files_never_collide(
    file_a: Seq<char>,
    server_a: Seq<char>,
    format_a: ArtifactFormat,
    file_b: Seq<char>,
    server_b: Seq<char>,
    format_b: ArtifactFormat,
)
    requires
        file_a != file_b,
        !occurs_in("_encoded"@, file_a),
        !occurs_in("_encoded"@, file_b),
    ensures
        encoded_filename(file_a, server_a, format_a) != encoded_filename(
            file_b,
            server_b,
            format_b,
        ),
{
    if spells_out(file_a, server_a, file_b, server_b) {
        lemma_spelling_out_needs_marker(file_a, server_a, file_b, server_b);
    }
    if spells_out(file_b, server_b, file_a, server_a) {
        lemma_spelling_out_needs_marker(file_b, server_b, file_a, server_a);
    }
    lemma_encoded_filenames_distinct(file_a, server_a, format_a, file_b, server_b, format_b);
}

} // verus!
