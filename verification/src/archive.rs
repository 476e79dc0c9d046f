//! Unpacking an uploaded archive.
//!
//! The archive is read twice. The first pass looks for a folder that all
//! entries share: the first segment of every entry name that is not empty,
//! where all agree and none is empty.
//! The second pass gives each entry its place below the target directory:
//! the safe relative path of the entry, without the shared folder. An entry
//! without a safe path, or with nothing left of it, is passed over.
//!
//! The library decides where each entry goes; writing the files is left to
//! the caller, who reads the content of entry `index` from the archive.

use crate::text::{chars_end_with, chars_of, ends_with, find_char, first_segment, string_of, texts};
use vstd::prelude::*;

verus! {

/// The reader of a zip archive.
#[verifier::external_type_specification]
#[verifier::external_body]
#[verifier::reject_recursive_types(R)]
pub struct ExZipArchive<R>(zip::ZipArchive<R>);

/// A cursor over bytes in memory.
#[verifier::external_type_specification]
#[verifier::external_body]
#[verifier::reject_recursive_types(T)]
pub struct ExCursor<T>(std::io::Cursor<T>);

/// The error of the zip reader.
#[verifier::external_type_specification]
#[verifier::external_body]
pub struct ExZipError(zip::result::ZipError);

/// An archive held in memory.
pub type MemoryArchive = zip::ZipArchive<std::io::Cursor<Vec<u8>>>;

/// What the library reads of one entry: its name as stored, and the
/// components of its safe relative path where it has one.
#[derive(Debug)]
pub struct ArchiveEntry {
    pub name: String,
    pub enclosed: Option<Vec<String>>,
}

/// An entry as plain values.
pub struct EntryView {
    pub name: Seq<char>,
    pub enclosed: Option<Seq<Seq<char>>>,
}

/// The components of an optional path as plain values.
pub open spec fn parts_of(path: Option<Vec<String>>) -> Option<Seq<Seq<char>>> {
    match path {
        Some(parts) => Some(texts(parts@)),
        None => None,
    }
}

impl ArchiveEntry {
    /// This value as plain values.
    pub open spec fn view(&self) -> EntryView {
        EntryView { name: self.name@, enclosed: parts_of(self.enclosed) }
    }
}

/// The entries as plain values.
pub open spec fn entry_views(entries: Seq<ArchiveEntry>) -> Seq<EntryView> {
    Seq::new(entries.len(), |i: int| entries[i]@)
}

/// The entries of an opened archive, in the order of its central
/// directory: for each, its name and safe path, or `None` where the entry
/// cannot be opened or its name cannot be read.
pub uninterp spec fn archive_entries(archive: MemoryArchive) -> Seq<Option<EntryView>>;

/// The entries that the zip reader finds in `bytes`, or `None` where it
/// does not accept them as an archive.
pub uninterp spec fn parsed_archive(bytes: Seq<u8>) -> Option<Seq<Option<EntryView>>>;

/// `zip::ZipArchive::new` on a cursor over `bytes`. The outcome is a function
/// of the bytes, named `parsed_archive`; nothing is claimed of what it is.
#[verifier::external_body]
fn open_archive(bytes: Vec<u8>) -> (r: Result<MemoryArchive, zip::result::ZipError>)
    ensures
        match r {
            Ok(archive) => parsed_archive(bytes@) == Some(archive_entries(archive)),
            Err(_) => parsed_archive(bytes@) is None,
        },
{
    zip::ZipArchive::new(std::io::Cursor::new(bytes))
}

/// `ZipArchive::len`: the number of entries.
#[verifier::external_body]
fn archive_len(archive: &MemoryArchive) -> (n: usize)
    ensures
        n == archive_entries(*archive).len(),
{
    archive.len()
}

/// `ZipArchive::by_index`, then `ZipFile::name`: the stored name of entry
/// `index`, or the error of whichever of the two fails. The archive holds
/// the same entries afterwards.
#[verifier::external_body]
fn entry_name(archive: &mut MemoryArchive, index: usize) -> (r: Result<
    String,
    zip::result::ZipError,
>)
    ensures
        archive_entries(*final(archive)) == archive_entries(*old(archive)),
        index < archive_entries(*old(archive)).len() ==> match r {
            Ok(name) => archive_entries(*old(archive))[index as int] is Some && archive_entries(
                *old(archive),
            )[index as int]->0.name == name@,
            Err(_) => archive_entries(*old(archive))[index as int] is None,
        },
{
    let file = archive.by_index(index)?;
    let name = file.name()?;
    Ok(name.into_owned())
}

/// `ZipArchive::by_index`, then `ZipFile::enclosed_name`: the components of
/// the safe relative path of entry `index`, `None` where the crate finds the
/// name unsafe. Where the entry can be opened and named, the call succeeds.
#[verifier::external_body]
fn entry_enclosed_name(archive: &mut MemoryArchive, index: usize) -> (r: Result<
    Option<Vec<String>>,
    zip::result::ZipError,
>)
    ensures
        archive_entries(*final(archive)) == archive_entries(*old(archive)),
        index < archive_entries(*old(archive)).len() && archive_entries(
            *old(archive),
        )[index as int] is Some ==> r is Ok && archive_entries(
            *old(archive),
        )[index as int]->0.enclosed == parts_of(r->Ok_0),
{
    let file = archive.by_index(index)?;
    Ok(
        file.enclosed_name().map(
            |p| p.components().map(|c| c.as_os_str().to_string_lossy().into_owned()).collect(),
        ),
    )
}

/// The `Display` text of an error of the zip reader.
#[verifier::external_body]
fn zip_error_text(error: &zip::result::ZipError) -> (text: String) {
    error.to_string()
}

// ---------------------------------------------------------------------
// The shared folder
// ---------------------------------------------------------------------

/// The first segment of an entry name: what stands before its first `/`.
pub open spec fn leading_segment(name: Seq<char>) -> Seq<char> {
    first_segment(name, '/')
}

/// Whether `prefix` is the folder that all of `names` share: it is not
/// empty, some name is not empty, and every name that is not empty has it
/// as first segment. A name whose first segment is empty, such as `/`,
/// therefore leaves the names without a shared folder.
pub open spec fn is_common_prefix(names: Seq<Seq<char>>, prefix: Seq<char>) -> bool {
    &&& prefix.len() > 0
    &&& exists|i: int| 0 <= i < names.len() && (#[trigger] names[i]).len() > 0
    &&& forall|i: int|
        0 <= i < names.len() && (#[trigger] names[i]).len() > 0 ==> leading_segment(names[i])
            == prefix
}

/// The folder that all of `names` share, if there is one.
pub open spec fn common_prefix(names: Seq<Seq<char>>) -> Option<Seq<char>> {
    if exists|p: Seq<char>| is_common_prefix(names, p) {
        Some(choose|p: Seq<char>| is_common_prefix(names, p))
    } else {
        None
    }
}

/// Names share at most one folder.
pub proof fn lemma_common_prefix_is_unique(names: Seq<Seq<char>>, p: Seq<char>, q: Seq<char>)
    requires
        is_common_prefix(names, p),
        is_common_prefix(names, q),
    ensures
        p == q,
        common_prefix(names) == Some(p),
{
    let i = choose|i: int| 0 <= i < names.len() && (#[trigger] names[i]).len() > 0;
    assert(leading_segment(names[i]) == p);
    assert(leading_segment(names[i]) == q);
    let c = choose|c: Seq<char>| is_common_prefix(names, c);
    assert(leading_segment(names[i]) == c);
}

/// Finds the folder that all entry names share: the first segment of the
/// names that are not empty, where it is the same for all of them and not
/// empty itself.
pub fn detect_common_prefix(names: &Vec<String>) -> (r: Option<String>)
    ensures
        match r {
            Some(p) => common_prefix(texts(names@)) == Some(p@),
            None => common_prefix(texts(names@)) is None,
        },
{
    let ghost all = texts(names@);
    let mut prefix: Option<String> = None;
    let mut i: usize = 0;
    while i < names.len()
        invariant
            i <= names.len(),
            all == texts(names@),
            match prefix {
                None => forall|j: int| 0 <= j < i ==> (#[trigger] all[j]).len() == 0,
                Some(p) => is_common_prefix(all.take(i as int), p@),
            },
        decreases names.len() - i,
    {
        let chars = chars_of(names[i].as_str());
        let ghost grown = all.take(i + 1);
        assert(grown[i as int] == all[i as int]);
        assert(forall|j: int| 0 <= j < i ==> grown[j] == all.take(i as int)[j]);
        if chars.len() > 0 {
            let cut = find_char(&chars, '/');
            let first = string_of(&chars, 0, cut);
            assert(first@ =~= leading_segment(all[i as int]));
            if cut == 0 {
                proof {
                    assert forall|q: Seq<char>| !is_common_prefix(all, q) by {
                        if is_common_prefix(all, q) {
                            assert(leading_segment(all[i as int]) == q);
                        }
                    }
                }
                return None;
            }
            match &prefix {
                None => {
                    proof {
                        assert(grown[i as int].len() > 0);
                        assert forall|j: int|
                            0 <= j < grown.len() && (#[trigger] grown[j]).len()
                                > 0 implies leading_segment(grown[j]) == first@ by {
                            if j < i {
                                assert(grown[j] == all[j]);
                            }
                        }
                    }
                    prefix = Some(first);
                },
                Some(p) => {
                    if !(*p == first) {
                        proof {
                            let k = choose|k: int|
                                0 <= k < i && (#[trigger] all.take(i as int)[k]).len() > 0;
                            assert(all.take(i as int)[k] == all[k]);
                            assert(leading_segment(all.take(i as int)[k]) == p@);
                            assert forall|q: Seq<char>| !is_common_prefix(all, q) by {
                                if is_common_prefix(all, q) {
                                    assert(leading_segment(all[k]) == q);
                                    assert(leading_segment(all[i as int]) == q);
                                }
                            }
                        }
                        return None;
                    }
                    proof {
                        let k = choose|k: int|
                            0 <= k < i && (#[trigger] all.take(i as int)[k]).len() > 0;
                        assert(grown[k] == all.take(i as int)[k]);
                        assert forall|j: int|
                            0 <= j < grown.len() && (#[trigger] grown[j]).len()
                                > 0 implies leading_segment(grown[j]) == p@ by {
                            if j < i {
                                assert(grown[j] == all.take(i as int)[j]);
                            }
                        }
                    }
                },
            }
        } else {
            proof {
                if prefix is Some {
                    let p = prefix->0@;
                    let k = choose|k: int|
                        0 <= k < i && (#[trigger] all.take(i as int)[k]).len() > 0;
                    assert(grown[k] == all.take(i as int)[k]);
                    assert forall|j: int|
                        0 <= j < grown.len() && (#[trigger] grown[j]).len()
                            > 0 implies leading_segment(grown[j]) == p by {
                        if j < i {
                            assert(grown[j] == all.take(i as int)[j]);
                        }
                    }
                }
            }
        }
        i = i + 1;
    }
    assert(all.take(i as int) =~= all);
    proof {
        if prefix is None {
            assert forall|q: Seq<char>| !is_common_prefix(all, q) by {
                if is_common_prefix(all, q) {
                    let k = choose|k: int| 0 <= k < all.len() && (#[trigger] all[k]).len() > 0;
                    assert(all[k].len() == 0);
                }
            }
        } else {
            lemma_common_prefix_is_unique(all, prefix->0@, prefix->0@);
        }
    }
    prefix
}

// ---------------------------------------------------------------------
// The place of each entry
// ---------------------------------------------------------------------

/// A component that names one file or directory and nothing else: it is
/// not empty, is neither `.` nor `..`, and holds no separator and no NUL.
pub open spec fn is_plain_name(part: Seq<char>) -> bool {
    &&& part.len() > 0
    &&& part != seq!['.']
    &&& part != seq!['.', '.']
    &&& forall|i: int|
        0 <= i < part.len() ==> #[trigger] part[i] != '/' && part[i] != '\\' && part[i] != '\0'
}

/// Whether every component of `path` is a plain name.
pub open spec fn all_plain(path: Seq<Seq<char>>) -> bool {
    forall|i: int| 0 <= i < path.len() ==> is_plain_name(#[trigger] path[i])
}

/// `path` without its first component, where that is the shared folder.
pub open spec fn stripped(prefix: Option<Seq<char>>, path: Seq<Seq<char>>) -> Seq<Seq<char>> {
    match prefix {
        Some(p) if path.len() > 0 && path[0] == p => path.drop_first(),
        _ => path,
    }
}

/// Where one entry is written, and whether it is a directory.
#[derive(Debug)]
pub struct PlannedEntry {
    /// The place of the entry in the archive.
    pub index: usize,
    /// The components of its path below the target directory.
    pub path: Vec<String>,
    /// Whether the entry is a directory: its stored name ends in `/`.
    pub is_dir: bool,
}

/// A planned entry as plain values.
pub struct PlannedView {
    pub index: int,
    pub path: Seq<Seq<char>>,
    pub is_dir: bool,
}

impl PlannedEntry {
    /// This value as plain values.
    pub open spec fn view(&self) -> PlannedView {
        PlannedView { index: self.index as int, path: texts(self.path@), is_dir: self.is_dir }
    }
}

/// The planned entries as plain values.
pub open spec fn planned_views(plan: Seq<PlannedEntry>) -> Seq<PlannedView> {
    Seq::new(plan.len(), |i: int| plan[i]@)
}

/// What is planned for entry `index`: nothing where it has no safe path,
/// where nothing is left of the path without the shared folder, or where
/// a component of what is left is not a plain name.
pub open spec fn planned_entry(prefix: Option<Seq<char>>, index: int, entry: EntryView) -> Option<
    PlannedView,
> {
    match entry.enclosed {
        None => None,
        Some(path) => {
            let out = stripped(prefix, path);
            if out.len() > 0 && all_plain(out) {
                Some(PlannedView { index, path: out, is_dir: ends_with(entry.name, "/"@) })
            } else {
                None
            }
        },
    }
}

/// What is planned for `entries`, in their order.
pub open spec fn planned(prefix: Option<Seq<char>>, entries: Seq<EntryView>) -> Seq<PlannedView>
    decreases entries.len(),
{
    if entries.len() == 0 {
        Seq::empty()
    } else {
        let rest = planned(prefix, entries.drop_last());
        match planned_entry(prefix, entries.len() - 1, entries.last()) {
            Some(item) => rest.push(item),
            None => rest,
        }
    }
}

/// The stored names of `entries`.
pub open spec fn entry_names(entries: Seq<EntryView>) -> Seq<Seq<char>> {
    Seq::new(entries.len(), |i: int| entries[i].name)
}

/// The whole plan for an archive with the entries `entries`.
pub open spec fn plan_of(entries: Seq<EntryView>) -> Seq<PlannedView> {
    planned(common_prefix(entry_names(entries)), entries)
}

/// Whether `part` is a plain name.
pub fn plain_name(part: &str) -> (b: bool)
    ensures
        b == is_plain_name(part@),
{
    let chars = chars_of(part);
    if chars.len() == 0 {
        return false;
    }
    if chars.len() == 1 && chars[0] == '.' {
        assert(part@ =~= seq!['.']);
        return false;
    }
    if chars.len() == 2 && chars[0] == '.' && chars[1] == '.' {
        assert(part@ =~= seq!['.', '.']);
        return false;
    }
    assert(part@ != seq!['.']) by {
        if part@ == seq!['.'] {
            assert(part@.len() == 1 && part@[0] == '.');
        }
    }
    assert(part@ != seq!['.', '.']) by {
        if part@ == seq!['.', '.'] {
            assert(part@.len() == 2 && part@[0] == '.' && part@[1] == '.');
        }
    }
    let mut i: usize = 0;
    while i < chars.len()
        invariant
            i <= chars.len(),
            chars@ == part@,
            forall|k: int|
                0 <= k < i ==> #[trigger] chars@[k] != '/' && chars@[k] != '\\' && chars@[k]
                    != '\0',
        decreases chars.len() - i,
    {
        let c = chars[i];
        if c == '/' || c == '\\' || c == '\0' {
            return false;
        }
        i = i + 1;
    }
    true
}

/// Whether every component of `path[from..]` is a plain name.
fn all_plain_from(path: &Vec<String>, from: usize) -> (b: bool)
    requires
        from <= path.len(),
    ensures
        b == all_plain(texts(path@).skip(from as int)),
{
    let ghost rest = texts(path@).skip(from as int);
    let mut i: usize = from;
    while i < path.len()
        invariant
            from <= i <= path.len(),
            rest == texts(path@).skip(from as int),
            forall|k: int| 0 <= k < i - from ==> is_plain_name(#[trigger] rest[k]),
        decreases path.len() - i,
    {
        if !plain_name(path[i].as_str()) {
            assert(rest[i - from] == path@[i as int]@);
            return false;
        }
        assert(rest[i - from] == path@[i as int]@);
        i = i + 1;
    }
    true
}

/// A copy of `path[from..]`.
fn copy_from(path: &Vec<String>, from: usize) -> (out: Vec<String>)
    requires
        from <= path.len(),
    ensures
        texts(out@) == texts(path@).skip(from as int),
{
    let mut out: Vec<String> = Vec::new();
    let mut i: usize = from;
    while i < path.len()
        invariant
            from <= i <= path.len(),
            out@.len() == i - from,
            forall|k: int| 0 <= k < out@.len() ==> (#[trigger] out@[k])@ == path@[from + k]@,
        decreases path.len() - i,
    {
        out.push(path[i].clone());
        i = i + 1;
    }
    assert(texts(out@) =~= texts(path@).skip(from as int));
    out
}

/// Decides the place of entry `index`.
pub fn plan_entry(prefix: &Option<String>, index: usize, entry: &ArchiveEntry) -> (r: Option<
    PlannedEntry,
>)
    ensures
        match r {
            Some(item) => planned_entry(text_of(*prefix), index as int, entry@) == Some(item@),
            None => planned_entry(text_of(*prefix), index as int, entry@) is None,
        },
{
    match &entry.enclosed {
        None => None,
        Some(path) => {
            let from: usize = match prefix {
                Some(p) => {
                    if path.len() > 0 && path[0] == *p {
                        1
                    } else {
                        0
                    }
                },
                None => 0,
            };
            let ghost out = stripped(text_of(*prefix), texts(path@));
            assert(out =~= texts(path@).skip(from as int));
            if from < path.len() && all_plain_from(path, from) {
                let name = chars_of(entry.name.as_str());
                Some(
                    PlannedEntry {
                        index,
                        path: copy_from(path, from),
                        is_dir: chars_end_with(&name, "/"),
                    },
                )
            } else {
                None
            }
        },
    }
}

/// The text of an optional string.
pub open spec fn text_of(s: Option<String>) -> Option<Seq<char>> {
    match s {
        Some(p) => Some(p@),
        None => None,
    }
}

/// Decides the place of every entry of an archive.
///
/// The shared folder is detected over the stored names of all entries.
/// Every entry with a safe path of which something is left without that
/// folder is planned, in the order of the archive.
pub fn plan_extraction(entries: &Vec<ArchiveEntry>) -> (plan: Vec<PlannedEntry>)
    ensures
        planned_views(plan@) == plan_of(entry_views(entries@)),
{
    let ghost all = entry_views(entries@);
    let mut names: Vec<String> = Vec::new();
    let mut i: usize = 0;
    while i < entries.len()
        invariant
            i <= entries.len(),
            names@.len() == i,
            forall|k: int| 0 <= k < i ==> (#[trigger] names@[k])@ == entries@[k].name@,
        decreases entries.len() - i,
    {
        names.push(entries[i].name.clone());
        i = i + 1;
    }
    assert(texts(names@) =~= entry_names(all));
    let prefix = detect_common_prefix(&names);
    assert(text_of(prefix) == common_prefix(entry_names(all)));
    let mut plan: Vec<PlannedEntry> = Vec::new();
    let mut i: usize = 0;
    assert(all.take(0) =~= Seq::<EntryView>::empty());
    assert(planned_views(plan@) =~= Seq::<PlannedView>::empty());
    while i < entries.len()
        invariant
            i <= entries.len(),
            all == entry_views(entries@),
            planned_views(plan@) == planned(text_of(prefix), all.take(i as int)),
        decreases entries.len() - i,
    {
        proof {
            assert(all.take(i + 1).drop_last() =~= all.take(i as int));
            assert(all.take(i + 1).last() == entries@[i as int]@);
        }
        let ghost shown = planned_views(plan@);
        match plan_entry(&prefix, i, &entries[i]) {
            Some(item) => {
                plan.push(item);
                assert(planned_views(plan@) =~= shown.push(item@));
            },
            None => {},
        }
        i = i + 1;
    }
    assert(all.take(i as int) =~= all);
    plan
}

// ---------------------------------------------------------------------
// Reading the archive
// ---------------------------------------------------------------------

/// An opened archive with the place of each of its entries.
pub struct Extraction {
    /// The archive, from which the content of entry `index` is read.
    pub archive: MemoryArchive,
    /// What is to be written, in the order of the archive.
    pub plan: Vec<PlannedEntry>,
    /// The number of entries examined, those passed over included.
    pub count: usize,
}

/// Whether every entry can be opened and named.
pub open spec fn all_readable(entries: Seq<Option<EntryView>>) -> bool {
    forall|i: int| 0 <= i < entries.len() ==> (#[trigger] entries[i]) is Some
}

/// The entries of an archive in which every entry can be opened.
pub open spec fn readable_entries(entries: Seq<Option<EntryView>>) -> Seq<EntryView> {
    Seq::new(entries.len(), |i: int| entries[i]->0)
}

/// Opens the archive in `zip_bytes` and decides the place of each entry.
///
/// Fails where the bytes are not an archive or an entry cannot be opened;
/// the error is the text of the reader's error. Otherwise the plan is that
/// of `plan_extraction` for the entries of the archive, and `count` is the
/// number of entries, those passed over included.
pub fn extract_zip(zip_bytes: Vec<u8>) -> (r: Result<Extraction, String>)
    ensures
        match parsed_archive(zip_bytes@) {
            Some(entries) if all_readable(entries) => r matches Ok(x) && archive_entries(x.archive)
                == entries && x.count == entries.len() && planned_views(x.plan@) == plan_of(
                readable_entries(entries),
            ),
            _ => r is Err,
        },
{
    let ghost bytes = zip_bytes@;
    let mut archive = match open_archive(zip_bytes) {
        Ok(archive) => archive,
        Err(e) => {
            return Err(zip_error_text(&e));
        },
    };
    let ghost stored = archive_entries(archive);
    let count = archive_len(&archive);
    let mut names: Vec<String> = Vec::new();
    let mut i: usize = 0;
    while i < count
        invariant
            i <= count,
            count == stored.len(),
            bytes == zip_bytes@,
            parsed_archive(bytes) == Some(stored),
            archive_entries(archive) == stored,
            names@.len() == i,
            forall|k: int|
                0 <= k < i ==> (#[trigger] stored[k]) is Some && stored[k]->0.name == names@[k]@,
        decreases count - i,
    {
        match entry_name(&mut archive, i) {
            Ok(name) => {
                names.push(name);
            },
            Err(e) => {
                assert(stored[i as int] is None);
                assert(!all_readable(stored));
                return Err(zip_error_text(&e));
            },
        }
        i = i + 1;
    }
    assert(all_readable(stored));
    let mut entries: Vec<ArchiveEntry> = Vec::new();
    let mut i: usize = 0;
    while i < count
        invariant
            i <= count,
            count == stored.len(),
            bytes == zip_bytes@,
            parsed_archive(bytes) == Some(stored),
            all_readable(stored),
            archive_entries(archive) == stored,
            names@.len() == count,
            forall|k: int|
                0 <= k < count ==> (#[trigger] stored[k]) is Some && stored[k]->0.name
                    == names@[k]@,
            entries@.len() == i,
            forall|k: int| 0 <= k < i ==> (#[trigger] entries@[k])@ == stored[k]->0,
        decreases count - i,
    {
        assert(stored[i as int] is Some);
        match entry_enclosed_name(&mut archive, i) {
            Ok(enclosed) => {
                let entry = ArchiveEntry { name: names[i].clone(), enclosed };
                assert(entry@ == stored[i as int]->0);
                entries.push(entry);
            },
            Err(e) => {
                return Err(zip_error_text(&e));
            },
        }
        i = i + 1;
    }
    assert(entry_views(entries@) =~= readable_entries(stored));
    let plan = plan_extraction(&entries);
    Ok(Extraction { archive, plan, count })
}

// ---------------------------------------------------------------------
// Laws of extraction
// ---------------------------------------------------------------------

/// How far a component moves a path down from where it stands: `..` goes
/// one level up, `.` and the empty component stay, a name goes one down.
pub open spec fn depth_step(part: Seq<char>) -> int {
    if part == seq!['.', '.'] {
        -1
    } else if part == seq!['.'] || part.len() == 0 {
        0
    } else {
        1
    }
}

/// How far below its start a path ends.
pub open spec fn depth_of(path: Seq<Seq<char>>) -> int
    decreases path.len(),
{
    if path.len() == 0 {
        0
    } else {
        depth_of(path.drop_last()) + depth_step(path.last())
    }
}

/// Whether a separator or a NUL stands in `part`.
pub open spec fn has_separator_or_nul(part: Seq<char>) -> bool {
    exists|i: int|
        0 <= i < part.len() && (#[trigger] part[i] == '/' || part[i] == '\\' || part[i] == '\0')
}

/// Whether `path`, resolved from a directory, never leaves that directory:
/// each component is one component, and no prefix of the path ends above
/// the directory.
pub open spec fn stays_inside(path: Seq<Seq<char>>) -> bool {
    &&& forall|i: int| 0 <= i < path.len() ==> !has_separator_or_nul(#[trigger] path[i])
    &&& forall|k: int| 0 <= k <= path.len() ==> depth_of(#[trigger] path.take(k)) >= 0
}

/// A path of plain names goes down one level with each component.
pub proof fn lemma_plain_path_descends(path: Seq<Seq<char>>)
    requires
        all_plain(path),
    ensures
        depth_of(path) == path.len(),
        stays_inside(path),
    decreases path.len(),
{
    if path.len() > 0 {
        let rest = path.drop_last();
        assert forall|i: int| 0 <= i < rest.len() implies is_plain_name(#[trigger] rest[i]) by {
            assert(rest[i] == path[i]);
        }
        lemma_plain_path_descends(rest);
        assert(is_plain_name(path[path.len() - 1]));
    }
    assert forall|k: int| 0 <= k <= path.len() implies depth_of(#[trigger] path.take(k)) >= 0 by {
        if k == path.len() {
            assert(path.take(k) =~= path);
        } else {
            assert(path.take(k) =~= path.drop_last().take(k));
        }
    }
    assert forall|i: int| 0 <= i < path.len() implies !has_separator_or_nul(
        #[trigger] path[i],
    ) by {
        assert(is_plain_name(path[i]));
    }
}

/// Every planned item stands for one entry of the archive, and is what
/// `planned_entry` gives for that entry. Items keep the order of the archive.
pub proof fn lemma_planned_items(prefix: Option<Seq<char>>, entries: Seq<EntryView>)
    ensures
        planned(prefix, entries).len() <= entries.len(),
        forall|k: int|
            0 <= k < planned(prefix, entries).len() ==> {
                let item = #[trigger] planned(prefix, entries)[k];
                &&& 0 <= item.index < entries.len()
                &&& planned_entry(prefix, item.index, entries[item.index]) == Some(item)
            },
        forall|j: int, k: int|
            0 <= j < k < planned(prefix, entries).len() ==> planned(prefix, entries)[j].index
                < planned(prefix, entries)[k].index,
    decreases entries.len(),
{
    if entries.len() > 0 {
        let rest = entries.drop_last();
        lemma_planned_items(prefix, rest);
        let all = planned(prefix, entries);
        let shorter = planned(prefix, rest);
        assert forall|k: int| 0 <= k < all.len() implies ({
            let item = #[trigger] all[k];
            &&& 0 <= item.index < entries.len()
            &&& planned_entry(prefix, item.index, entries[item.index]) == Some(item)
        }) by {
            if k < shorter.len() {
                assert(all[k] == shorter[k]);
                assert(rest[shorter[k].index] == entries[shorter[k].index]);
            }
        }
        assert forall|j: int, k: int| 0 <= j < k < all.len() implies all[j].index
            < all[k].index by {
            assert(all[j] == shorter[j]);
            if k < shorter.len() {
                assert(all[k] == shorter[k]);
            }
        }
    }
}

/// Nothing is written outside the target directory: whatever the entries
/// of the archive are, every planned path is made of plain names, and so
/// stays inside the directory from which it is resolved.
pub proof fn lemma_extraction_stays_inside(entries: Seq<EntryView>)
    ensures
        forall|k: int|
            0 <= k < plan_of(entries).len() ==> {
                let item = #[trigger] plan_of(entries)[k];
                &&& item.path.len() > 0
                &&& all_plain(item.path)
                &&& stays_inside(item.path)
            },
{
    let prefix = common_prefix(entry_names(entries));
    lemma_planned_items(prefix, entries);
    assert forall|k: int| 0 <= k < plan_of(entries).len() implies ({
        let item = #[trigger] plan_of(entries)[k];
        &&& item.path.len() > 0
        &&& all_plain(item.path)
        &&& stays_inside(item.path)
    }) by {
        let item = plan_of(entries)[k];
        assert(planned_entry(prefix, item.index, entries[item.index]) == Some(item));
        lemma_plain_path_descends(item.path);
    }
}

/// Where all entry names begin with one folder, that folder is the shared
/// one.
pub proof fn lemma_one_folder_is_shared(names: Seq<Seq<char>>, folder: Seq<char>)
    requires
        names.len() > 0,
        folder.len() > 0,
        forall|i: int| 0 <= i < names.len() ==> leading_segment(#[trigger] names[i]) == folder,
    ensures
        common_prefix(names) == Some(folder),
{
    assert(leading_segment(names[0]) == folder);
    assert(names[0].len() > 0) by {
        crate::text::lemma_index_of(names[0], '/');
    }
    assert(is_common_prefix(names, folder));
    lemma_common_prefix_is_unique(names, folder, folder);
}

/// Where a name that is not empty begins with an empty segment, as `/`
/// and `/a` do, no folder is shared.
pub proof fn lemma_empty_first_segment_shares_none(names: Seq<Seq<char>>, i: int)
    requires
        0 <= i < names.len(),
        names[i].len() > 0,
        leading_segment(names[i]).len() == 0,
    ensures
        common_prefix(names) is None,
{
    assert forall|p: Seq<char>| !is_common_prefix(names, p) by {
        if is_common_prefix(names, p) {
            assert(leading_segment(names[i]) == p);
        }
    }
}

/// Where no name is there, or every name is empty, no folder is shared.
pub proof fn lemma_no_name_shares_none(names: Seq<Seq<char>>)
    requires
        forall|i: int| 0 <= i < names.len() ==> (#[trigger] names[i]).len() == 0,
    ensures
        common_prefix(names) is None,
{
    assert forall|p: Seq<char>| !is_common_prefix(names, p) by {
        if is_common_prefix(names, p) {
            let k = choose|k: int| 0 <= k < names.len() && (#[trigger] names[k]).len() > 0;
            assert(names[k].len() == 0);
        }
    }
}

/// Where two entry names begin with different folders, none is shared.
pub proof fn lemma_different_folders_share_none(names: Seq<Seq<char>>, i: int, j: int)
    requires
        0 <= i < names.len(),
        0 <= j < names.len(),
        leading_segment(names[i]).len() > 0,
        leading_segment(names[j]).len() > 0,
        leading_segment(names[i]) != leading_segment(names[j]),
    ensures
        common_prefix(names) is None,
{
    crate::text::lemma_index_of(names[i], '/');
    crate::text::lemma_index_of(names[j], '/');
    assert forall|p: Seq<char>| !is_common_prefix(names, p) by {
        if is_common_prefix(names, p) {
            assert(names[i].len() > 0 && names[j].len() > 0);
            assert(leading_segment(names[i]) == p);
            assert(leading_segment(names[j]) == p);
        }
    }
}

/// The shared folder is stripped, and nothing else. Where the entries share
/// a folder, the path planned for an entry is its safe path without that
/// folder in front; an entry whose safe path begins otherwise keeps it
/// whole. Where they share none, every planned path is the whole safe path.
pub proof fn lemma_shared_folder_is_stripped(entries: Seq<EntryView>, k: int)
    requires
        0 <= k < plan_of(entries).len(),
    ensures
        ({
            let item = plan_of(entries)[k];
            let shared = common_prefix(entry_names(entries));
            &&& 0 <= item.index < entries.len()
            &&& entries[item.index].enclosed matches Some(path) && (match shared {
                Some(folder) => if path.len() > 0 && path[0] == folder {
                    item.path == path.drop_first()
                } else {
                    item.path == path
                },
                None => item.path == path,
            })
        }),
{
    lemma_planned_items(common_prefix(entry_names(entries)), entries);
}

} // verus!
