//! The archiver: downloaded files and the root directory entry are
//! streamed into a single compressed container, member by member, with the
//! same chunked-transfer discipline as the downloads — fixed-size chunks,
//! bounded memory, exact byte accounting.
//!
//! Every member path is sanitized before it is handed to the container:
//! each path component loses its platform-forbidden characters, and `.`
//! components are dropped entirely.

use vstd::prelude::*;
use vstd::string::StrSliceExecFns;
use vstd::string::StringExecFns;
use crate::sanitize::{blocked_char, sanitize_seq, sanitize_title, lemma_sanitize_seq_clean};

verus! {

/// A path cut at every separator, the separators themselves dropped.
pub open spec fn split_slash(s: Seq<char>) -> Seq<Seq<char>>
    decreases s.len(),
{
    if s.len() == 0 {
        seq![Seq::<char>::empty()]
    } else if s[0] == '/' {
        seq![Seq::<char>::empty()] + split_slash(s.drop_first())
    } else {
        let rest = split_slash(s.drop_first());
        seq![seq![s[0]] + rest[0]] + rest.drop_first()
    }
}

/// Components joined with a separator between each pair.
pub open spec fn join_slash(cs: Seq<Seq<char>>) -> Seq<char>
    decreases cs.len(),
{
    if cs.len() == 0 {
        Seq::empty()
    } else if cs.len() == 1 {
        cs[0]
    } else {
        cs[0] + seq!['/'] + join_slash(cs.drop_first())
    }
}

/// Whether a raw component survives: empty components and bare `.`
/// components are dropped.
pub open spec fn keep_component(c: Seq<char>) -> bool {
    c.len() > 0 && c != seq!['.']
}

/// The surviving components of the first `i` raw components, each
/// sanitized.
pub open spec fn kept_components(parts: Seq<Seq<char>>, i: int) -> Seq<Seq<char>>
    decreases i,
{
    if i <= 0 {
        Seq::empty()
    } else {
        let rest = kept_components(parts, i - 1);
        if keep_component(parts[i - 1]) {
            rest.push(sanitize_seq(parts[i - 1]))
        } else {
            rest
        }
    }
}

/// The sanitized member path a raw path becomes: split at separators,
/// empty and `.` components dropped, every survivor sanitized, the rest
/// joined back with separators.
pub open spec fn archive_path_of(s: Seq<char>) -> Seq<char> {
    join_slash(kept_components(split_slash(s), split_slash(s).len() as int))
}

/// A separator-free sequence is one whole component.
proof fn lemma_split_whole(p: Seq<char>)
    requires
        forall|j: int| 0 <= j < p.len() ==> p[j] != '/',
    ensures
        split_slash(p) == seq![p],
    decreases p.len(),
{
    if p.len() == 0 {
        assert(p =~= Seq::<char>::empty());
        assert(split_slash(p) =~= seq![p]);
    } else {
        lemma_split_whole(p.drop_first());
        assert(seq![p[0]] + p.drop_first() =~= p);
        assert(split_slash(p) =~= seq![p]);
    }
}

/// Splitting starts over after the first separator.
proof fn lemma_split_at_sep(p: Seq<char>, rest: Seq<char>)
    requires
        forall|j: int| 0 <= j < p.len() ==> p[j] != '/',
    ensures
        split_slash(p + seq!['/'] + rest) == seq![p] + split_slash(rest),
    decreases p.len(),
{
    let s = p + seq!['/'] + rest;
    if p.len() == 0 {
        assert(s.drop_first() =~= rest);
        assert(s[0] == '/');
        assert(p =~= Seq::<char>::empty());
        assert(split_slash(s) =~= seq![p] + split_slash(rest));
    } else {
        lemma_split_at_sep(p.drop_first(), rest);
        assert(s.drop_first() =~= p.drop_first() + seq!['/'] + rest);
        assert(s[0] == p[0]);
        assert(s[0] != '/');
        let r = split_slash(s.drop_first());
        assert(r == seq![p.drop_first()] + split_slash(rest));
        assert(r[0] == p.drop_first());
        assert(seq![s[0]] + r[0] =~= p);
        assert(r.drop_first() =~= split_slash(rest));
        assert(split_slash(s) =~= seq![p] + split_slash(rest));
    }
}

/// Appending one more component to a join.
proof fn lemma_join_push(cs: Seq<Seq<char>>, c: Seq<char>)
    ensures
        join_slash(cs.push(c)) == if cs.len() == 0 {
            c
        } else {
            join_slash(cs) + seq!['/'] + c
        },
    decreases cs.len(),
{
    if cs.len() == 0 {
        assert(cs.push(c)[0] =~= c);
        assert(join_slash(cs.push(c)) =~= c);
    } else {
        lemma_join_push(cs.drop_first(), c);
        assert(cs.push(c).drop_first() =~= cs.drop_first().push(c));
        assert(cs.push(c)[0] == cs[0]);
        if cs.len() == 1 {
            assert(join_slash(cs.push(c)) =~= cs[0] + seq!['/'] + c);
            assert(join_slash(cs) == cs[0]);
        } else {
            assert(join_slash(cs.push(c)) =~= join_slash(cs) + seq!['/'] + c);
        }
    }
}

/// A join of clean components splits back into exactly those components.
proof fn lemma_split_join(cs: Seq<Seq<char>>)
    requires
        cs.len() > 0,
        forall|k: int| 0 <= k < cs.len() ==> (#[trigger] cs[k]).len() > 0,
        forall|k: int, j: int| 0 <= k < cs.len() && 0 <= j < cs[k].len() ==> cs[k][j] != '/',
    ensures
        split_slash(join_slash(cs)) == cs,
    decreases cs.len(),
{
    if cs.len() == 1 {
        lemma_split_whole(cs[0]);
        assert(split_slash(join_slash(cs)) =~= cs);
    } else {
        lemma_split_join(cs.drop_first());
        lemma_split_at_sep(cs[0], join_slash(cs.drop_first()));
        assert(split_slash(join_slash(cs)) =~= seq![cs[0]] + cs.drop_first());
        assert(seq![cs[0]] + cs.drop_first() =~= cs);
    }
}

/// A join of non-empty components is non-empty and ends as its last
/// component does.
proof fn lemma_join_last(cs: Seq<Seq<char>>)
    requires
        cs.len() > 0,
        forall|k: int| 0 <= k < cs.len() ==> (#[trigger] cs[k]).len() > 0,
    ensures
        join_slash(cs).len() > 0,
        join_slash(cs).last() == cs.last().last(),
    decreases cs.len(),
{
    if cs.len() > 1 {
        lemma_join_last(cs.drop_first());
        assert(cs.drop_first().last() == cs.last());
        assert(join_slash(cs).last() == join_slash(cs.drop_first()).last());
    }
}

/// Every surviving component is non-empty, is not `.`, and holds no
/// blocked character.
proof fn lemma_kept_clean(parts: Seq<Seq<char>>, i: int)
    ensures
        forall|k: int|
            0 <= k < kept_components(parts, i).len() ==> (#[trigger] kept_components(
                parts,
                i,
            )[k]).len() > 0,
        forall|k: int|
            0 <= k < kept_components(parts, i).len() ==> kept_components(parts, i)[k]
                != seq!['.'],
        forall|k: int, j: int|
            0 <= k < kept_components(parts, i).len() && 0 <= j < kept_components(parts, i)[k].len()
                ==> !blocked_char(#[trigger] kept_components(parts, i)[k][j]),
    decreases i,
{
    if i > 0 {
        lemma_kept_clean(parts, i - 1);
        if keep_component(parts[i - 1]) {
            let c = parts[i - 1];
            lemma_sanitize_seq_clean(c);
            if sanitize_seq(c) == seq!['.'] {
                assert(sanitize_seq(c)[0] == crate::sanitize::sanitize_char(c[0]));
                assert(c.len() == 1);
                assert(crate::sanitize::sanitize_char(c[0]) == '.');
                assert(c[0] == '.');
                assert(c =~= seq!['.']);
            }
            assert forall|k: int|
                0 <= k < kept_components(parts, i).len() implies (#[trigger] kept_components(
                parts,
                i,
            )[k]).len() > 0 by {
                if k < kept_components(parts, i - 1).len() {
                    assert(kept_components(parts, i)[k] == kept_components(parts, i - 1)[k]);
                }
            }
            assert forall|k: int, j: int|
                0 <= k < kept_components(parts, i).len() && 0 <= j < kept_components(
                parts,
                i,
            )[k].len() implies !blocked_char(#[trigger] kept_components(parts, i)[k][j]) by {
                if k < kept_components(parts, i - 1).len() {
                    assert(kept_components(parts, i)[k] == kept_components(parts, i - 1)[k]);
                } else {
                    assert(kept_components(parts, i)[k] == sanitize_seq(c));
                }
            }
        }
    }
}

/// The sanitized member path never holds a `.` segment, an empty segment
/// or a platform-forbidden character in any segment, and it never ends in
/// a separator.
pub proof fn lemma_archive_path_clean(s: Seq<char>)
    ensures
        ({
            let cs = split_slash(archive_path_of(s));
            archive_path_of(s).len() > 0 ==> {
                &&& forall|k: int| 0 <= k < cs.len() ==> (#[trigger] cs[k]).len() > 0
                &&& forall|k: int| 0 <= k < cs.len() ==> (#[trigger] cs[k]) != seq!['.']
                &&& forall|k: int, j: int|
                    0 <= k < cs.len() && 0 <= j < cs[k].len() ==> !blocked_char(
                        #[trigger] cs[k][j],
                    )
            }
        }),
        archive_path_of(s).len() > 0 ==> archive_path_of(s).last() != '/' && archive_path_of(
            s,
        ).last() != '\\',
{
    let parts = split_slash(s);
    let kept = kept_components(parts, parts.len() as int);
    lemma_kept_clean(parts, parts.len() as int);
    if archive_path_of(s).len() > 0 {
        assert(kept.len() > 0) by {
            if kept.len() == 0 {
                assert(join_slash(kept).len() == 0);
            }
        }
        assert forall|k: int, j: int|
            0 <= k < kept.len() && 0 <= j < kept[k].len() implies kept[k][j] != '/' by {
            assert(!blocked_char(kept[k][j]));
        }
        lemma_split_join(kept);
        lemma_join_last(kept);
        let last = kept.last();
        assert(archive_path_of(s).last() == last.last());
        assert(!blocked_char(last.last()));
    }
}

/// Splits a raw path at its separators.
fn split_components(raw: &str) -> (r: Vec<String>)
    ensures
        r@.map_values(|c: String| c@) == split_slash(raw@),
{
    let n = raw.unicode_len();
    let mut comps: Vec<String> = Vec::new();
    let mut cur = String::new();
    let mut i: usize = 0;
    proof {
        assert(cur@ + raw@.skip(0) =~= raw@);
        assert(comps@.map_values(|c: String| c@) =~= Seq::<Seq<char>>::empty());
        assert(split_slash(raw@) =~= comps@.map_values(|c: String| c@) + split_slash(
            cur@ + raw@.skip(0),
        ));
    }
    while i < n
        invariant
            i <= n,
            n == raw@.len(),
            forall|j: int| 0 <= j < cur@.len() ==> cur@[j] != '/',
            split_slash(raw@) == comps@.map_values(|c: String| c@) + split_slash(
                cur@ + raw@.skip(i as int),
            ),
        decreases n - i,
    {
        let c = raw.get_char(i);
        if c == '/' {
            proof {
                lemma_split_at_sep(cur@, raw@.skip(i + 1));
                assert(cur@ + raw@.skip(i as int) =~= cur@ + seq!['/'] + raw@.skip(i + 1));
            }
            let ghost map0 = comps@.map_values(|c2: String| c2@);
            let ghost curv = cur@;
            comps.push(cur);
            cur = String::new();
            proof {
                assert(comps@.map_values(|c2: String| c2@) =~= map0.push(curv));
                assert(map0 + (seq![curv] + split_slash(raw@.skip(i + 1))) =~= map0.push(curv)
                    + split_slash(raw@.skip(i + 1)));
                assert(cur@ + raw@.skip(i + 1) =~= raw@.skip(i + 1));
            }
        } else {
            let ghost cur0 = cur@;
            cur.push(c);
            proof {
                assert(cur@ + raw@.skip(i + 1) =~= cur0 + raw@.skip(i as int));
            }
        }
        i += 1;
    }
    proof {
        assert(cur@ + raw@.skip(n as int) =~= cur@);
        lemma_split_whole(cur@);
    }
    let ghost map0 = comps@.map_values(|c2: String| c2@);
    let ghost curv = cur@;
    comps.push(cur);
    proof {
        assert(comps@.map_values(|c2: String| c2@) =~= map0.push(curv));
        assert(map0 + seq![curv] =~= map0.push(curv));
    }
    comps
}

/// The sanitized member path for a raw path: separators kept, empty and
/// `.` components dropped, forbidden characters replaced.
pub fn member_path(raw: &str) -> (r: String)
    ensures
        r@ == archive_path_of(raw@),
{
    let comps = split_components(raw);
    let ghost parts = split_slash(raw@);
    let mut out = String::new();
    let mut kept: usize = 0;
    let mut idx: usize = 0;
    proof {
        assert(out@ =~= join_slash(kept_components(parts, 0)));
    }
    while idx < comps.len()
        invariant
            idx <= comps@.len(),
            comps@.map_values(|c: String| c@) == parts,
            kept <= idx,
            kept == kept_components(parts, idx as int).len(),
            out@ == join_slash(kept_components(parts, idx as int)),
        decreases comps@.len() - idx,
    {
        let c = &comps[idx];
        proof {
            assert(c@ == parts[idx as int]);
            reveal_strlit(".");
            assert("."@ =~= seq!['.']);
        }
        let keep = !c.as_str().is_empty() && !crate::text::str_eq(c.as_str(), ".");
        let ghost ks = kept_components(parts, idx as int);
        if keep {
            let s = sanitize_title(c.as_str());
            proof {
                lemma_join_push(ks, sanitize_seq(c@));
            }
            if kept == 0 {
                out = s;
            } else {
                out.push('/');
                out.append(s.as_str());
                proof {
                    assert(join_slash(ks).push('/') + s@ =~= join_slash(ks) + seq!['/'] + s@);
                }
            }
            kept += 1;
        }
        idx += 1;
    }
    out
}

/// What went wrong while packaging the archive.
#[derive(Debug)]
pub enum ZipError {
    /// The container could not be opened.
    ZipOpenError(String),
    /// A directory member could not be added.
    AddDirError(String),
    /// A source file could not be read.
    ReadError(String),
    /// A chunk could not be written to the current member.
    WriteError(String),
    /// A new compressed member could not be started.
    StartFileError(String),
}

/// The mathematical value of an archiving error.
pub enum ZipErrorV {
    ZipOpenError(Seq<char>),
    AddDirError(Seq<char>),
    ReadError(Seq<char>),
    WriteError(Seq<char>),
    StartFileError(Seq<char>),
}

impl View for ZipError {
    type V = ZipErrorV;

    open spec fn view(&self) -> ZipErrorV {
        match *self {
            ZipError::ZipOpenError(ref m) => ZipErrorV::ZipOpenError(m@),
            ZipError::AddDirError(ref m) => ZipErrorV::AddDirError(m@),
            ZipError::ReadError(ref m) => ZipErrorV::ReadError(m@),
            ZipError::WriteError(ref m) => ZipErrorV::WriteError(m@),
            ZipError::StartFileError(ref m) => ZipErrorV::StartFileError(m@),
        }
    }
}

/// The largest payload one member may carry before the container would
/// need the large-file record the writer was not asked for.
pub const ZIP64_MEMBER_LIMIT: u64 = 0xffff_ffff;

/// One entry of a container, in the order the entries were begun: a file
/// member with its uncompressed content, or a directory member under its
/// separator-terminated name.
pub enum ZipEntryV {
    File { name: Seq<char>, data: Seq<u8> },
    Directory { name: Seq<char> },
}

/// The in-memory zip container: the outside crate's writer over a byte
/// buffer, together with the member options used for every member.
/// Nothing inside is visible to the verifier; the writer is created and
/// moved only through the trusted calls below, whose contracts speak of
/// [`zip_log`]. Every call takes the writer by value and a failing call
/// consumes it, so a writer that an error left closed or half-written is
/// never handed on.
#[verifier::external_body]
pub struct ContainerWriter {
    inner: zip::ZipWriter<std::io::Cursor<Vec<u8>>>,
    opts: zip::write::FileOptions,
}

/// The entries a container holds so far, in the order they were begun.
pub uninterp spec fn zip_log(w: ContainerWriter) -> Seq<ZipEntryV>;

/// The size of a payload after the writer's fixed compression (deflate at
/// its strongest level): a function of the bytes alone. Compression can
/// enlarge an incompressible payload slightly, which is why closing a
/// member can fail even when the payload itself is within the limit.
pub uninterp spec fn deflated_size(data: Seq<u8>) -> nat;

/// The bytes of the finished container holding exactly these entries:
/// with fixed member options and a constant timestamp, the writer's
/// output is a function of the entry log alone.
pub uninterp spec fn container_of(log: Seq<ZipEntryV>) -> Seq<u8>;

/// Whether the last entry, if it is a file member, can be closed: its
/// payload and its compressed form both fit the member limit. Closing
/// happens inside the next call that begins an entry or finishes the
/// container.
pub open spec fn closing_ok(log: Seq<ZipEntryV>) -> bool {
    log.len() == 0 || match log.last() {
        ZipEntryV::File { data, .. } => data.len() <= ZIP64_MEMBER_LIMIT && deflated_size(data)
            <= ZIP64_MEMBER_LIMIT,
        ZipEntryV::Directory { .. } => true,
    }
}

/// Relies on `zip::ZipWriter::new`: a writer over a fresh in-memory
/// buffer holds no entries yet; building it performs no I/O and cannot
/// fail. The options ask for the strongest compression level, which the
/// writer accepts.
#[verifier::external_body]
fn zw_new() -> (w: ContainerWriter)
    ensures
        zip_log(w) == Seq::<ZipEntryV>::empty(),
{
    ContainerWriter {
        inner: zip::ZipWriter::new(std::io::Cursor::new(Vec::new())),
        opts: zip::write::FileOptions::default().compression_level(Some(9)),
    }
}

/// Relies on `zip::ZipWriter::start_file`: on success a new, empty file
/// member with exactly the given name is begun after the previous entry,
/// if any, is closed; earlier entries stay as they were. On an in-memory
/// buffer the call fails only when closing the previous member does, so
/// success is owed whenever the last entry can be closed.
#[verifier::external_body]
fn zw_start_file(w: ContainerWriter, name: &str) -> (r: Result<ContainerWriter, String>)
    ensures
        ({
            let log = zip_log(w);
            log.len() == 0 || match log.last() {
                ZipEntryV::File { data, .. } => data.len() <= ZIP64_MEMBER_LIMIT && deflated_size(
                    data,
                ) <= ZIP64_MEMBER_LIMIT,
                ZipEntryV::Directory { .. } => true,
            }
        }) ==> r is Ok,
        r matches Ok(w2) ==> zip_log(w2) == zip_log(w).push(
            ZipEntryV::File { name: name@, data: Seq::empty() },
        ),
{
    let mut inner = w;
    let opts = inner.opts;
    match inner.inner.start_file(name, opts) {
        Ok(_) => Ok(inner),
        Err(e) => Err(e.to_string()),
    }
}

/// Relies on the `std::io::Write` impl of `zip::ZipWriter` through
/// `write_all`: the whole buffer lands at the end of the file member
/// begun last exactly when that member stays within the member limit, and
/// the call fails exactly when it would not; nothing else moves. The
/// buffer is never empty, so the call always reaches the writer.
#[verifier::external_body]
fn zw_write_all(w: ContainerWriter, buf: &[u8]) -> (r: Result<ContainerWriter, String>)
    requires
        zip_log(w).len() > 0,
        zip_log(w).last() is File,
        buf@.len() > 0,
    ensures
        (match zip_log(w).last() {
            ZipEntryV::File { data, .. } => data.len() + buf@.len() <= ZIP64_MEMBER_LIMIT,
            ZipEntryV::Directory { .. } => false,
        }) ==> r is Ok,
        (match zip_log(w).last() {
            ZipEntryV::File { data, .. } => data.len() + buf@.len() > ZIP64_MEMBER_LIMIT,
            ZipEntryV::Directory { .. } => false,
        }) ==> r is Err,
        r matches Ok(w2) ==> zip_log(w2) == zip_log(w).update(
            zip_log(w).len() - 1,
            match zip_log(w).last() {
                ZipEntryV::File { name, data } => ZipEntryV::File { name, data: data + buf@ },
                ZipEntryV::Directory { name } => ZipEntryV::Directory { name },
            },
        ),
{
    let mut inner = w;
    match std::io::Write::write_all(&mut inner.inner, buf) {
        Ok(_) => Ok(inner),
        Err(e) => Err(e.to_string()),
    }
}

/// Relies on `zip::ZipWriter::add_directory`: on success a directory
/// member is recorded under the given name with a separator appended (the
/// names handed in never end in one), after the previous entry, if any,
/// is closed; success is owed whenever the last entry can be closed.
#[verifier::external_body]
fn zw_add_directory(w: ContainerWriter, name: &str) -> (r: Result<ContainerWriter, String>)
    requires
        name@.len() > 0 ==> name@.last() != '/' && name@.last() != '\\',
    ensures
        ({
            let log = zip_log(w);
            log.len() == 0 || match log.last() {
                ZipEntryV::File { data, .. } => data.len() <= ZIP64_MEMBER_LIMIT && deflated_size(
                    data,
                ) <= ZIP64_MEMBER_LIMIT,
                ZipEntryV::Directory { .. } => true,
            }
        }) ==> r is Ok,
        r matches Ok(w2) ==> zip_log(w2) == zip_log(w).push(
            ZipEntryV::Directory { name: name@ + seq!['/'] },
        ),
{
    let mut inner = w;
    let opts = inner.opts;
    match inner.inner.add_directory(name, opts) {
        Ok(_) => Ok(inner),
        Err(e) => Err(e.to_string()),
    }
}

/// Relies on `zip::ZipWriter::finish`: the last entry is closed, the
/// central directory is written, and the finished container's bytes come
/// back; on an in-memory buffer this fails only when closing the last
/// member does, so success is owed whenever the last entry can be closed.
#[verifier::external_body]
fn zw_finish(w: ContainerWriter) -> (r: Result<Vec<u8>, String>)
    ensures
        ({
            let log = zip_log(w);
            log.len() == 0 || match log.last() {
                ZipEntryV::File { data, .. } => data.len() <= ZIP64_MEMBER_LIMIT && deflated_size(
                    data,
                ) <= ZIP64_MEMBER_LIMIT,
                ZipEntryV::Directory { .. } => true,
            }
        }) ==> r is Ok,
        r matches Ok(b) ==> b@ == container_of(zip_log(w)),
{
    let mut inner = w;
    match inner.inner.finish() {
        Ok(c) => Ok(c.into_inner()),
        Err(e) => Err(e.to_string()),
    }
}

/// The file members of an entry log, in order.
pub open spec fn log_members(log: Seq<ZipEntryV>) -> Seq<(Seq<char>, Seq<u8>)>
    decreases log.len(),
{
    if log.len() == 0 {
        Seq::empty()
    } else {
        let rest = log_members(log.drop_last());
        match log.last() {
            ZipEntryV::File { name, data } => rest.push((name, data)),
            ZipEntryV::Directory { .. } => rest,
        }
    }
}

/// The directory members of an entry log, in order.
pub open spec fn log_dirs(log: Seq<ZipEntryV>) -> Seq<Seq<char>>
    decreases log.len(),
{
    if log.len() == 0 {
        Seq::empty()
    } else {
        let rest = log_dirs(log.drop_last());
        match log.last() {
            ZipEntryV::File { .. } => rest,
            ZipEntryV::Directory { name } => rest.push(name),
        }
    }
}

/// Whether every file member of the log fits the member limit, payload
/// and compressed form alike; then any entry of the log can be closed.
pub open spec fn log_fits(log: Seq<ZipEntryV>) -> bool {
    forall|k: int|
        0 <= k < log.len() ==> match #[trigger] log[k] {
            ZipEntryV::File { data, .. } => data.len() <= ZIP64_MEMBER_LIMIT && deflated_size(
                data,
            ) <= ZIP64_MEMBER_LIMIT,
            ZipEntryV::Directory { .. } => true,
        }
}

/// A log whose members all fit can always be closed.
proof fn lemma_log_fits_closing(log: Seq<ZipEntryV>)
    requires
        log_fits(log),
    ensures
        closing_ok(log),
{
    if log.len() > 0 {
        assert(match log[log.len() - 1] {
            ZipEntryV::File { data, .. } => data.len() <= ZIP64_MEMBER_LIMIT && deflated_size(
                data,
            ) <= ZIP64_MEMBER_LIMIT,
            ZipEntryV::Directory { .. } => true,
        });
    }
}

/// The diagnostic line of an archiving error.
pub open spec fn zip_error_text(z: ZipErrorV) -> Seq<char> {
    match z {
        ZipErrorV::ZipOpenError(m) => "error while opening zip file: "@ + m,
        ZipErrorV::AddDirError(m) => "error while adding directory: "@ + m,
        ZipErrorV::ReadError(m) => "error while reading file: "@ + m,
        ZipErrorV::WriteError(m) => "error while writing file: "@ + m,
        ZipErrorV::StartFileError(m) => "error while compressing file: "@ + m,
    }
}

impl ZipError {
    /// One line saying what failed, for the diagnostic surface.
    pub fn describe(&self) -> (r: String)
        ensures
            r@ == zip_error_text(self@),
    {
        match self {
            ZipError::ZipOpenError(m) => String::from_str(
                "error while opening zip file: ",
            ).concat(m.as_str()),
            ZipError::AddDirError(m) => String::from_str(
                "error while adding directory: ",
            ).concat(m.as_str()),
            ZipError::ReadError(m) => String::from_str(
                "error while reading file: ",
            ).concat(m.as_str()),
            ZipError::WriteError(m) => String::from_str(
                "error while writing file: ",
            ).concat(m.as_str()),
            ZipError::StartFileError(m) => String::from_str(
                "error while compressing file: ",
            ).concat(m.as_str()),
        }
    }
}

/// One entry of a packaging plan: a downloaded file to compress under a
/// member path, or a bare directory member.
#[derive(Debug)]
pub enum ArchiveEntry {
    FileEntry { source_path: String, archive_path: String },
    DirectoryEntry { archive_path: String },
}

/// The mathematical value of an archive entry.
pub enum ArchiveEntryV {
    FileEntry { source_path: Seq<char>, archive_path: Seq<char> },
    DirectoryEntry { archive_path: Seq<char> },
}

impl View for ArchiveEntry {
    type V = ArchiveEntryV;

    open spec fn view(&self) -> ArchiveEntryV {
        match *self {
            ArchiveEntry::FileEntry { ref source_path, ref archive_path } => {
                ArchiveEntryV::FileEntry {
                    source_path: source_path@,
                    archive_path: archive_path@,
                }
            },
            ArchiveEntry::DirectoryEntry { ref archive_path } => {
                ArchiveEntryV::DirectoryEntry { archive_path: archive_path@ }
            },
        }
    }
}

/// One step of the derived views of an entry log.
proof fn lemma_log_push(log: Seq<ZipEntryV>, e: ZipEntryV)
    ensures
        log_members(log.push(e)) == match e {
            ZipEntryV::File { name, data } => log_members(log).push((name, data)),
            ZipEntryV::Directory { .. } => log_members(log),
        },
        log_dirs(log.push(e)) == match e {
            ZipEntryV::File { .. } => log_dirs(log),
            ZipEntryV::Directory { name } => log_dirs(log).push(name),
        },
{
    assert(log.push(e).drop_last() =~= log);
    assert(log.push(e).last() == e);
}

/// The container being built: every file member carries a sanitized path
/// and exactly the bytes streamed into it, and the byte total is the sum
/// of all file-member payloads.
pub struct Archive {
    writer: ContainerWriter,
    total_bytes: u64,
}

impl Archive {
    /// The entries so far, in the order they were begun.
    pub closed spec fn log(&self) -> Seq<ZipEntryV> {
        zip_log(self.writer)
    }

    /// The file members so far: each member's path and content, in order.
    pub open spec fn members(&self) -> Seq<(Seq<char>, Seq<u8>)> {
        log_members(self.log())
    }

    /// The directory members so far, in order.
    pub open spec fn dirs(&self) -> Seq<Seq<char>> {
        log_dirs(self.log())
    }

    /// The bytes streamed into file members so far.
    pub closed spec fn total(&self) -> u64 {
        self.total_bytes
    }

    /// Every member streamed in so far fits the member limit, payload and
    /// compressed form alike. While this holds, the next operation is
    /// owed success; a member whose compressed form outgrew the limit
    /// surfaces as an error at the call that has to close it.
    pub open spec fn wf(&self) -> bool {
        log_fits(self.log())
    }

    /// A fresh, empty container.
    pub fn new() -> (a: Archive)
        ensures
            a.log() == Seq::<ZipEntryV>::empty(),
            a.members() == Seq::<(Seq<char>, Seq<u8>)>::empty(),
            a.dirs() == Seq::<Seq<char>>::empty(),
            a.total() == 0,
            a.wf(),
    {
        let a = Archive { writer: zw_new(), total_bytes: 0 };
        proof {
            assert(a.members() =~= Seq::<(Seq<char>, Seq<u8>)>::empty());
            assert(a.dirs() =~= Seq::<Seq<char>>::empty());
        }
        a
    }

    /// Streams `data` into a new member at the sanitized member path of
    /// `raw_path`, one chunk of at most `chunk_size` bytes at a time, and
    /// returns how many bytes went in. A path with nothing left after
    /// sanitization adds no member. On a well-formed container the call
    /// fails exactly when the payload itself passes the member limit; an
    /// error consumes the container, as an archiving failure is fatal for
    /// the archive step.
    #[verifier::loop_isolation(false)]
    pub fn add_file(self, raw_path: &str, data: &Vec<u8>, chunk_size: usize) -> (r: Result<
        (Archive, u64),
        ZipError,
    >)
        requires
            chunk_size >= 1,
            archive_path_of(raw_path@).len() > 0 ==> self.total() + data@.len() <= u64::MAX,
        ensures
            self.wf() && (archive_path_of(raw_path@).len() == 0 || data@.len()
                <= ZIP64_MEMBER_LIMIT) ==> r is Ok,
            self.wf() ==> (r is Err <==> (archive_path_of(raw_path@).len() > 0 && data@.len()
                > ZIP64_MEMBER_LIMIT)),
            match r {
                Ok(p) => {
                    &&& p.0.dirs() == self.dirs()
                    &&& if archive_path_of(raw_path@).len() > 0 {
                        &&& p.0.log() == self.log().push(
                            ZipEntryV::File { name: archive_path_of(raw_path@), data: data@ },
                        )
                        &&& p.0.members() == self.members().push(
                            (archive_path_of(raw_path@), data@),
                        )
                        &&& p.1 == data@.len()
                        &&& p.0.total() == self.total() + data@.len()
                    } else {
                        &&& p.0.log() == self.log()
                        &&& p.0.members() == self.members()
                        &&& p.1 == 0
                        &&& p.0.total() == self.total()
                    }
                    &&& (self.wf() && (archive_path_of(raw_path@).len() == 0 || (data@.len()
                        <= ZIP64_MEMBER_LIMIT && deflated_size(data@) <= ZIP64_MEMBER_LIMIT)))
                        ==> p.0.wf()
                },
                Err(e) => e@ is StartFileError || e@ is WriteError,
            },
    {
        let path = member_path(raw_path);
        if path.as_str().is_empty() {
            return Ok((self, 0));
        }
        proof {
            if self.wf() {
                lemma_log_fits_closing(self.log());
            }
        }
        let Archive { writer, total_bytes } = self;
        let writer = match zw_start_file(writer, path.as_str()) {
            Err(m) => {
                return Err(ZipError::StartFileError(m));
            },
            Ok(w) => w,
        };
        let ghost log0 = self.log();
        let mut writer = writer;
        let total_len = data.len();
        let mut i: usize = 0;
        proof {
            assert(data@.take(0) =~= Seq::<u8>::empty());
        }
        while i < total_len
            invariant
                i <= total_len,
                total_len == data@.len(),
                chunk_size >= 1,
                i <= ZIP64_MEMBER_LIMIT,
                zip_log(writer) == log0.push(
                    ZipEntryV::File { name: path@, data: data@.take(i as int) },
                ),
            decreases total_len - i,
        {
            let n = if total_len - i < chunk_size {
                total_len - i
            } else {
                chunk_size
            };
            let chunk = vstd::slice::slice_subrange(data.as_slice(), i, i + n);
            let ghost lg = zip_log(writer);
            proof {
                assert(lg.last() == ZipEntryV::File { name: path@, data: data@.take(i as int) });
            }
            writer = match zw_write_all(writer, chunk) {
                Err(m) => {
                    proof {
                        assert(data@.len() > ZIP64_MEMBER_LIMIT);
                    }
                    return Err(ZipError::WriteError(m));
                },
                Ok(w) => w,
            };
            proof {
                assert(data@.take(i as int) + chunk@ =~= data@.take(i + n));
                assert(zip_log(writer) =~= log0.push(
                    ZipEntryV::File { name: path@, data: data@.take(i + n) },
                ));
            }
            i += n;
        }
        proof {
            assert(data@.take(total_len as int) =~= data@);
            lemma_log_push(log0, ZipEntryV::File { name: path@, data: data@ });
            if self.wf() && deflated_size(data@) <= ZIP64_MEMBER_LIMIT {
                let lg2 = log0.push(ZipEntryV::File { name: path@, data: data@ });
                assert forall|k: int| 0 <= k < lg2.len() implies match #[trigger] lg2[k] {
                    ZipEntryV::File { data: d, .. } => d.len() <= ZIP64_MEMBER_LIMIT
                        && deflated_size(d) <= ZIP64_MEMBER_LIMIT,
                    ZipEntryV::Directory { .. } => true,
                } by {
                    if k < log0.len() {
                        assert(lg2[k] == log0[k]);
                    }
                }
            }
        }
        let written = total_len as u64;
        Ok((Archive { writer, total_bytes: total_bytes + written }, written))
    }

    /// Adds a directory member at the sanitized member path of `raw_path`;
    /// a path with nothing left after sanitization adds no member. On a
    /// well-formed container the call always succeeds.
    pub fn add_directory(self, raw_path: &str) -> (r: Result<Archive, ZipError>)
        ensures
            self.wf() ==> r is Ok,
            match r {
                Ok(a) => {
                    &&& a.members() == self.members()
                    &&& a.total() == self.total()
                    &&& if archive_path_of(raw_path@).len() > 0 {
                        &&& a.log() == self.log().push(
                            ZipEntryV::Directory {
                                name: archive_path_of(raw_path@) + seq!['/'],
                            },
                        )
                        &&& a.dirs() == self.dirs().push(archive_path_of(raw_path@) + seq!['/'])
                    } else {
                        &&& a.log() == self.log()
                        &&& a.dirs() == self.dirs()
                    }
                    &&& self.wf() ==> a.wf()
                },
                Err(e) => e@ is AddDirError,
            },
    {
        let path = member_path(raw_path);
        if path.as_str().is_empty() {
            return Ok(self);
        }
        proof {
            lemma_archive_path_clean(raw_path@);
            if self.wf() {
                lemma_log_fits_closing(self.log());
            }
        }
        let Archive { writer, total_bytes } = self;
        match zw_add_directory(writer, path.as_str()) {
            Err(m) => Err(ZipError::AddDirError(m)),
            Ok(w) => {
                let a = Archive { writer: w, total_bytes };
                proof {
                    let ghost e = ZipEntryV::Directory {
                        name: archive_path_of(raw_path@) + seq!['/'],
                    };
                    lemma_log_push(self.log(), e);
                    if self.wf() {
                        let lg2 = self.log().push(e);
                        assert forall|k: int| 0 <= k < lg2.len() implies match #[trigger] lg2[k] {
                            ZipEntryV::File { data: d, .. } => d.len() <= ZIP64_MEMBER_LIMIT
                                && deflated_size(d) <= ZIP64_MEMBER_LIMIT,
                            ZipEntryV::Directory { .. } => true,
                        } by {
                            if k < self.log().len() {
                                assert(lg2[k] == self.log()[k]);
                            }
                        }
                    }
                }
                Ok(a)
            },
        }
    }

    /// Finalizes the container: the last member is closed and the central
    /// directory is written before the bytes are handed back, so no
    /// partially-finalized archive is ever returned. The bytes are the
    /// container holding exactly the entries streamed in, and the byte
    /// total accompanies them. On a well-formed container finalization
    /// always succeeds.
    pub fn finish(self) -> (r: Result<(Vec<u8>, u64), ZipError>)
        ensures
            self.wf() ==> r is Ok,
            match r {
                Ok(p) => p.1 == self.total() && p.0@ == container_of(self.log()),
                Err(e) => e@ is WriteError,
            },
    {
        proof {
            if self.wf() {
                lemma_log_fits_closing(self.log());
            }
        }
        let Archive { writer, total_bytes } = self;
        match zw_finish(writer) {
            Err(m) => Err(ZipError::WriteError(m)),
            Ok(bytes) => Ok((bytes, total_bytes)),
        }
    }
}

/// The byte total the first `i` entries contribute: the size of each file
/// entry's source whose member path survives sanitization.
pub open spec fn packed_total(
    entries: Seq<ArchiveEntryV>,
    s: crate::transfer::LocalStoreV,
    i: int,
) -> int
    decreases i,
{
    if i <= 0 {
        0
    } else {
        packed_total(entries, s, i - 1) + match entries[i - 1] {
            ArchiveEntryV::FileEntry { source_path, archive_path } => {
                if archive_path_of(archive_path).len() > 0 {
                    s.file_data(source_path).len() as int
                } else {
                    0
                }
            },
            ArchiveEntryV::DirectoryEntry { .. } => 0,
        }
    }
}

/// The file members the first `i` entries add, in order.
pub open spec fn packed_members(
    entries: Seq<ArchiveEntryV>,
    s: crate::transfer::LocalStoreV,
    i: int,
) -> Seq<(Seq<char>, Seq<u8>)>
    decreases i,
{
    if i <= 0 {
        Seq::empty()
    } else {
        let rest = packed_members(entries, s, i - 1);
        match entries[i - 1] {
            ArchiveEntryV::FileEntry { source_path, archive_path } => {
                if archive_path_of(archive_path).len() > 0 {
                    rest.push((archive_path_of(archive_path), s.file_data(source_path)))
                } else {
                    rest
                }
            },
            ArchiveEntryV::DirectoryEntry { .. } => rest,
        }
    }
}

/// The directory members the first `i` entries add, in order.
pub open spec fn packed_dirs(
    entries: Seq<ArchiveEntryV>,
    s: crate::transfer::LocalStoreV,
    i: int,
) -> Seq<Seq<char>>
    decreases i,
{
    if i <= 0 {
        Seq::empty()
    } else {
        let rest = packed_dirs(entries, s, i - 1);
        match entries[i - 1] {
            ArchiveEntryV::DirectoryEntry { archive_path } => {
                if archive_path_of(archive_path).len() > 0 {
                    rest.push(archive_path_of(archive_path) + seq!['/'])
                } else {
                    rest
                }
            },
            ArchiveEntryV::FileEntry { .. } => rest,
        }
    }
}

/// Whether every file entry among the first `i` has its source present.
pub open spec fn sources_present(
    entries: Seq<ArchiveEntryV>,
    s: crate::transfer::LocalStoreV,
    i: int,
) -> bool {
    forall|j: int|
        0 <= j < i ==> match #[trigger] entries[j] {
            ArchiveEntryV::FileEntry { source_path, .. } => s.has_file(source_path),
            ArchiveEntryV::DirectoryEntry { .. } => true,
        }
}

/// The packed byte total only grows with more entries.
pub proof fn lemma_packed_total_mono(
    entries: Seq<ArchiveEntryV>,
    s: crate::transfer::LocalStoreV,
    i: int,
    j: int,
)
    requires
        0 <= i <= j,
    ensures
        packed_total(entries, s, i) <= packed_total(entries, s, j),
    decreases j,
{
    if j > i {
        lemma_packed_total_mono(entries, s, i, j - 1);
    }
}

/// The entry log a packaging plan produces: each entry with a surviving
/// member path, in plan order.
pub open spec fn packed_log(
    entries: Seq<ArchiveEntryV>,
    s: crate::transfer::LocalStoreV,
    i: int,
) -> Seq<ZipEntryV>
    decreases i,
{
    if i <= 0 {
        Seq::empty()
    } else {
        let rest = packed_log(entries, s, i - 1);
        match entries[i - 1] {
            ArchiveEntryV::FileEntry { source_path, archive_path } => {
                if archive_path_of(archive_path).len() > 0 {
                    rest.push(
                        ZipEntryV::File {
                            name: archive_path_of(archive_path),
                            data: s.file_data(source_path),
                        },
                    )
                } else {
                    rest
                }
            },
            ArchiveEntryV::DirectoryEntry { archive_path } => {
                if archive_path_of(archive_path).len() > 0 {
                    rest.push(
                        ZipEntryV::Directory { name: archive_path_of(archive_path) + seq!['/'] },
                    )
                } else {
                    rest
                }
            },
        }
    }
}

/// Whether every packed file member among the first `i` entries fits the
/// member limit, payload and compressed form alike.
pub open spec fn packed_fits(
    entries: Seq<ArchiveEntryV>,
    s: crate::transfer::LocalStoreV,
    i: int,
) -> bool {
    forall|j: int|
        0 <= j < i ==> match #[trigger] entries[j] {
            ArchiveEntryV::FileEntry { source_path, archive_path } => archive_path_of(
                archive_path,
            ).len() > 0 ==> s.file_data(source_path).len() <= ZIP64_MEMBER_LIMIT && deflated_size(
                s.file_data(source_path),
            ) <= ZIP64_MEMBER_LIMIT,
            ArchiveEntryV::DirectoryEntry { .. } => true,
        }
}

/// Builds the container for a packaging plan: every file entry is
/// streamed in under its sanitized member path with the chunk discipline,
/// every directory entry with a surviving path becomes a directory
/// member. A file entry whose source is missing from the store is fatal
/// for the archive step.
#[verifier::loop_isolation(false)]
pub fn build_archive(
    entries: &Vec<ArchiveEntry>,
    store: &crate::transfer::LocalStore,
    chunk_size: usize,
) -> (r: Result<Archive, ZipError>)
    requires
        chunk_size >= 1,
        store.wf(),
        packed_total(
            entries@.map_values(|e: ArchiveEntry| e@),
            store@,
            entries@.len() as int,
        ) <= u64::MAX,
    ensures
        ({
            let ev = entries@.map_values(|e: ArchiveEntry| e@);
            let n = entries@.len() as int;
            &&& sources_present(ev, store@, n) && packed_fits(ev, store@, n) ==> r is Ok
            &&& match r {
                Ok(a) => {
                    &&& sources_present(ev, store@, n)
                    &&& a.log() == packed_log(ev, store@, n)
                    &&& a.members() == packed_members(ev, store@, n)
                    &&& a.dirs() == packed_dirs(ev, store@, n)
                    &&& a.total() == packed_total(ev, store@, n)
                    &&& packed_fits(ev, store@, n) ==> a.wf()
                },
                Err(e) => {
                    &&& e@ is ReadError || e@ is StartFileError || e@ is WriteError
                        || e@ is AddDirError
                    &&& e@ is ReadError ==> !sources_present(ev, store@, n)
                },
            }
        }),
{
    let ghost ev = entries@.map_values(|e: ArchiveEntry| e@);
    let ghost n = entries@.len() as int;
    let mut arch = Archive::new();
    proof {
        assert(arch.members() =~= packed_members(ev, store@, 0));
        assert(arch.dirs() =~= packed_dirs(ev, store@, 0));
    }
    let mut i: usize = 0;
    while i < entries.len()
        invariant
            i <= entries@.len(),
            sources_present(ev, store@, i as int),
            arch.log() == packed_log(ev, store@, i as int),
            arch.members() == packed_members(ev, store@, i as int),
            arch.dirs() == packed_dirs(ev, store@, i as int),
            arch.total() == packed_total(ev, store@, i as int),
            packed_fits(ev, store@, i as int) ==> arch.wf(),
        decreases entries@.len() - i,
    {
        let ghost ii = i as int;
        proof {
            assert(ev[ii] == entries@[ii]@);
            lemma_packed_total_mono(ev, store@, ii + 1, n);
        }
        match &entries[i] {
            ArchiveEntry::FileEntry { source_path, archive_path } => {
                match store.get_file(source_path.as_str()) {
                    None => {
                        proof {
                            assert(!store@.has_file(source_path@));
                            assert(!sources_present(ev, store@, n));
                        }
                        return Err(ZipError::ReadError(String::from_str("missing source file")));
                    },
                    Some(data) => {
                        match arch.add_file(archive_path.as_str(), data, chunk_size) {
                            Err(e) => {
                                proof {
                                    if packed_fits(ev, store@, n) {
                                        assert(packed_fits(ev, store@, ii));
                                        assert(match ev[ii] {
                                            ArchiveEntryV::FileEntry {
                                                source_path,
                                                archive_path: ap,
                                            } => archive_path_of(ap).len() > 0
                                                ==> store@.file_data(source_path).len()
                                                <= ZIP64_MEMBER_LIMIT,
                                            ArchiveEntryV::DirectoryEntry { .. } => true,
                                        });
                                        assert(false);
                                    }
                                }
                                return Err(e);
                            },
                            Ok(p) => {
                                arch = p.0;
                            },
                        }
                    },
                }
            },
            ArchiveEntry::DirectoryEntry { archive_path } => {
                match arch.add_directory(archive_path.as_str()) {
                    Err(e) => {
                        proof {
                            if packed_fits(ev, store@, n) {
                                assert(packed_fits(ev, store@, ii));
                                assert(false);
                            }
                        }
                        return Err(e);
                    },
                    Ok(a) => {
                        arch = a;
                    },
                }
            },
        }
        i += 1;
    }
    Ok(arch)
}

/// Packages a plan into one finished, compressed container and returns
/// its bytes together with the total payload bytes written. The container
/// is fully finalized before it is returned.
pub fn package(
    entries: &Vec<ArchiveEntry>,
    store: &crate::transfer::LocalStore,
    chunk_size: usize,
) -> (r: Result<(Vec<u8>, u64), ZipError>)
    requires
        chunk_size >= 1,
        store.wf(),
        packed_total(
            entries@.map_values(|e: ArchiveEntry| e@),
            store@,
            entries@.len() as int,
        ) <= u64::MAX,
    ensures
        ({
            let ev = entries@.map_values(|e: ArchiveEntry| e@);
            let n = entries@.len() as int;
            &&& sources_present(ev, store@, n) && packed_fits(ev, store@, n) ==> r is Ok
            &&& match r {
                Ok(p) => sources_present(ev, store@, n) && p.1 == packed_total(ev, store@, n)
                    && p.0@ == container_of(packed_log(ev, store@, n)),
                Err(e) => e@ is ReadError || e@ is StartFileError || e@ is WriteError
                    || e@ is AddDirError,
            }
        }),
{
    match build_archive(entries, store, chunk_size) {
        Err(e) => Err(e),
        Ok(arch) => arch.finish(),
    }
}

} // verus!
