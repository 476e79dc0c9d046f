//! The catalogue of stored reports, rebuilt from a scan of the storage tree.
//!
//! The tree has three levels of directories: projects, branches, report
//! lines. Only directories count at these levels, and a line whose name is
//! a number is passed over. A line shows its latest version, where it has
//! one, and every version of its `raw` directory, where it has one.
//! Branches without reports and projects without branches are left out.

use crate::listing::{listing_view, DirEntry, DirEntryView, EntryKind};
use crate::models::ReportType;
use crate::ordered::{lemma_map_of_entry, OrderedMap};
use crate::text::{decimal_digits, parse_u32, parsed_u32, push_decimal, str_eq, texts};
use vstd::prelude::*;

verus! {

/// An entry at the level of report lines: its name, what it is, the
/// entries that it holds, and the names of the entries of its `raw`
/// sub-directory, both in the order of the scan.
#[derive(Debug)]
pub struct LineDir {
    pub name: String,
    pub kind: EntryKind,
    pub children: Vec<DirEntry>,
    pub raw: Vec<String>,
}

/// An entry at the level of branches, with the entries that it holds.
#[derive(Debug)]
pub struct BranchDir {
    pub name: String,
    pub kind: EntryKind,
    pub lines: Vec<LineDir>,
}

/// An entry at the level of projects, with the entries that it holds.
#[derive(Debug)]
pub struct ProjectDir {
    pub name: String,
    pub kind: EntryKind,
    pub branches: Vec<BranchDir>,
}

/// One report as the catalogue shows it.
#[derive(Debug)]
pub struct ReportDescriptor {
    pub name: String,
    pub id: u32,
    pub path: String,
    pub kind: ReportType,
}

/// A line as plain values.
pub struct LineView {
    pub name: Seq<char>,
    pub kind: EntryKind,
    pub children: Seq<DirEntryView>,
    pub raw: Seq<Seq<char>>,
}

/// A branch as plain values.
pub struct BranchView {
    pub name: Seq<char>,
    pub kind: EntryKind,
    pub lines: Seq<LineView>,
}

/// A project as plain values.
pub struct ProjectView {
    pub name: Seq<char>,
    pub kind: EntryKind,
    pub branches: Seq<BranchView>,
}

/// A descriptor as plain values.
pub struct DescriptorView {
    pub name: Seq<char>,
    pub id: u32,
    pub path: Seq<char>,
    pub kind: ReportType,
}

impl LineDir {
    /// This value as plain values.
    pub open spec fn view(&self) -> LineView {
        LineView {
            name: self.name@,
            kind: self.kind,
            children: listing_view(self.children@),
            raw: texts(self.raw@),
        }
    }
}

/// The lines of a branch as plain values.
pub open spec fn line_views(lines: Seq<LineDir>) -> Seq<LineView> {
    Seq::new(lines.len(), |i: int| lines[i]@)
}

impl BranchDir {
    /// This value as plain values.
    pub open spec fn view(&self) -> BranchView {
        BranchView { name: self.name@, kind: self.kind, lines: line_views(self.lines@) }
    }
}

/// The branches of a project as plain values.
pub open spec fn branch_views(branches: Seq<BranchDir>) -> Seq<BranchView> {
    Seq::new(branches.len(), |i: int| branches[i]@)
}

impl ProjectDir {
    /// This value as plain values.
    pub open spec fn view(&self) -> ProjectView {
        ProjectView { name: self.name@, kind: self.kind, branches: branch_views(self.branches@) }
    }
}

/// The projects of a tree as plain values.
pub open spec fn project_views(projects: Seq<ProjectDir>) -> Seq<ProjectView> {
    Seq::new(projects.len(), |i: int| projects[i]@)
}

impl ReportDescriptor {
    /// This value as plain values.
    pub open spec fn view(&self) -> DescriptorView {
        DescriptorView { name: self.name@, id: self.id, path: self.path@, kind: self.kind }
    }
}

/// The reports of a branch as plain values.
pub open spec fn descriptor_views(reports: Seq<ReportDescriptor>) -> Seq<DescriptorView> {
    Seq::new(reports.len(), |i: int| reports[i]@)
}

// ---------------------------------------------------------------------
// What the catalogue shows
// ---------------------------------------------------------------------

/// The names of `entries`, in their order.
pub open spec fn entry_names(entries: Seq<DirEntryView>) -> Seq<Seq<char>> {
    Seq::new(entries.len(), |i: int| entries[i].name)
}

/// The highest number among `names`, or 0 when none is a number.
pub open spec fn highest_number(names: Seq<Seq<char>>) -> nat
    decreases names.len(),
{
    if names.len() == 0 {
        0
    } else {
        let rest = highest_number(names.drop_last());
        match parsed_u32(names.last()) {
            Some(v) if v as nat > rest => v as nat,
            _ => rest,
        }
    }
}

/// Where version `id` of a line is served.
pub open spec fn report_path(
    project: Seq<char>,
    branch: Seq<char>,
    line: Seq<char>,
    id: u32,
    kind: ReportType,
) -> Seq<char> {
    "/"@ + project + "/"@ + branch + "/"@ + line + (match kind {
        ReportType::Raw => "/raw/"@,
        ReportType::Allure => "/"@,
    }) + decimal_digits(id as nat) + "/index.html"@
}

/// The entry for the latest version `id` of a rendered line.
pub open spec fn rendered_descriptor(
    project: Seq<char>,
    branch: Seq<char>,
    line: Seq<char>,
    id: u32,
) -> DescriptorView {
    DescriptorView {
        name: line,
        id,
        path: report_path(project, branch, line, id, ReportType::Allure),
        kind: ReportType::Allure,
    }
}

/// The entry for version `id` of the raw directory of a line.
pub open spec fn raw_descriptor(
    project: Seq<char>,
    branch: Seq<char>,
    line: Seq<char>,
    id: u32,
) -> DescriptorView {
    DescriptorView {
        name: line + " (Raw)"@,
        id,
        path: report_path(project, branch, line, id, ReportType::Raw),
        kind: ReportType::Raw,
    }
}

/// The version that an entry of a raw directory stands for: the number
/// that its name writes, where that is at least 1.
pub open spec fn raw_version(name: Seq<char>) -> Option<u32> {
    match parsed_u32(name) {
        Some(id) if id >= 1 => Some(id),
        _ => None,
    }
}

/// One raw entry for each version among `names`, in the order of the scan.
pub open spec fn raw_descriptors(
    project: Seq<char>,
    branch: Seq<char>,
    line: Seq<char>,
    names: Seq<Seq<char>>,
) -> Seq<DescriptorView>
    decreases names.len(),
{
    if names.len() == 0 {
        Seq::empty()
    } else {
        let rest = raw_descriptors(project, branch, line, names.drop_last());
        match raw_version(names.last()) {
            Some(id) => rest.push(raw_descriptor(project, branch, line, id)),
            None => rest,
        }
    }
}

/// Whether a directory named `raw` is among `children`.
pub open spec fn has_raw_dir(children: Seq<DirEntryView>) -> bool {
    exists|i: int|
        0 <= i < children.len() && (#[trigger] children[i]).kind == EntryKind::Dir
            && children[i].name == "raw"@
}

/// Whether an entry at the level of lines is a report line: a directory
/// whose name is no number.
pub open spec fn is_report_line(line: LineView) -> bool {
    line.kind == EntryKind::Dir && parsed_u32(line.name) is None
}

/// The entry for the latest version of a line, where it has one.
pub open spec fn latest_descriptor(project: Seq<char>, branch: Seq<char>, line: LineView) -> Seq<
    DescriptorView,
> {
    if highest_number(entry_names(line.children)) > 0 {
        seq![
            rendered_descriptor(
                project,
                branch,
                line.name,
                highest_number(entry_names(line.children)) as u32,
            ),
        ]
    } else {
        Seq::empty()
    }
}

/// The entries for the raw versions of a line, where it has a raw
/// directory.
pub open spec fn stored_raw_descriptors(
    project: Seq<char>,
    branch: Seq<char>,
    line: LineView,
) -> Seq<DescriptorView> {
    if has_raw_dir(line.children) {
        raw_descriptors(project, branch, line.name, line.raw)
    } else {
        Seq::empty()
    }
}

/// The entries that one entry at the level of lines gives: for a report
/// line, its latest version and then its raw versions; for anything else,
/// nothing.
pub open spec fn line_descriptors(project: Seq<char>, branch: Seq<char>, line: LineView) -> Seq<
    DescriptorView,
> {
    if is_report_line(line) {
        latest_descriptor(project, branch, line) + stored_raw_descriptors(project, branch, line)
    } else {
        Seq::empty()
    }
}

/// The entries of a branch: those of its lines, in the order of the scan.
pub open spec fn branch_descriptors(
    project: Seq<char>,
    branch: Seq<char>,
    lines: Seq<LineView>,
) -> Seq<DescriptorView>
    decreases lines.len(),
{
    if lines.len() == 0 {
        Seq::empty()
    } else {
        branch_descriptors(project, branch, lines.drop_last()) + line_descriptors(
            project,
            branch,
            lines.last(),
        )
    }
}

/// The reports of one entry at the level of branches: those of its lines
/// where it is a directory, none otherwise.
pub open spec fn reports_of_branch(project: Seq<char>, branch: BranchView) -> Seq<DescriptorView> {
    if branch.kind == EntryKind::Dir {
        branch_descriptors(project, branch.name, branch.lines)
    } else {
        Seq::empty()
    }
}

/// The branches of a project that have entries, each with its entries.
/// Where two directories have one name, the later one counts.
pub open spec fn branches_of(project: Seq<char>, branches: Seq<BranchView>) -> Map<
    Seq<char>,
    Seq<DescriptorView>,
>
    decreases branches.len(),
{
    if branches.len() == 0 {
        Map::empty()
    } else {
        let rest = branches_of(project, branches.drop_last());
        let last = branches.last();
        let reports = reports_of_branch(project, last);
        if reports.len() > 0 {
            rest.insert(last.name, reports)
        } else {
            rest
        }
    }
}

/// The listed branches of one entry at the level of projects: those of a
/// directory, none otherwise.
pub open spec fn branches_of_project(project: ProjectView) -> Map<Seq<char>, Seq<DescriptorView>> {
    if project.kind == EntryKind::Dir {
        branches_of(project.name, project.branches)
    } else {
        Map::empty()
    }
}

/// The projects that have branches with entries, each with those branches.
pub open spec fn catalog_of(projects: Seq<ProjectView>) -> Map<
    Seq<char>,
    Map<Seq<char>, Seq<DescriptorView>>,
>
    decreases projects.len(),
{
    if projects.len() == 0 {
        Map::empty()
    } else {
        let rest = catalog_of(projects.drop_last());
        let last = projects.last();
        let branches = branches_of_project(last);
        if branches =~= Map::empty() {
            rest
        } else {
            rest.insert(last.name, branches)
        }
    }
}

// ---------------------------------------------------------------------
// Building the catalogue
// ---------------------------------------------------------------------

/// The stored catalogue: projects by name, each with its branches by name,
/// each with its reports in the order of the scan.
pub struct Catalog {
    pub projects: OrderedMap<OrderedMap<Vec<ReportDescriptor>>>,
}

/// The reports of each branch as plain values.
pub open spec fn branch_map_view(branches: Map<Seq<char>, Vec<ReportDescriptor>>) -> Map<
    Seq<char>,
    Seq<DescriptorView>,
> {
    branches.map_values(|reports: Vec<ReportDescriptor>| descriptor_views(reports@))
}

/// The branches of each project as plain values.
pub open spec fn project_map_view(
    projects: Map<Seq<char>, OrderedMap<Vec<ReportDescriptor>>>,
) -> Map<Seq<char>, Map<Seq<char>, Seq<DescriptorView>>> {
    projects.map_values(|branches: OrderedMap<Vec<ReportDescriptor>>| branch_map_view(branches@))
}

impl Catalog {
    /// Projects and branches are sorted by name, without repetition.
    pub open spec fn wf(&self) -> bool {
        &&& self.projects.wf()
        &&& forall|i: int|
            0 <= i < self.projects.entries@.len() ==> (#[trigger] self.projects.entries@[i]).1.wf()
    }

    /// The catalogue as a map from project to branch to reports.
    pub open spec fn view(&self) -> Map<Seq<char>, Map<Seq<char>, Seq<DescriptorView>>> {
        project_map_view(self.projects@)
    }
}

/// The path at which version `id` of `line` is served.
pub fn build_report_path(project: &str, branch: &str, line: &str, id: u32, kind: ReportType) -> (path:
    String)
    ensures
        path@ == report_path(project@, branch@, line@, id, kind),
{
    let mut path = String::from_str("/");
    path.append(project);
    path.append("/");
    path.append(branch);
    path.append("/");
    path.append(line);
    match kind {
        ReportType::Raw => path.append("/raw/"),
        ReportType::Allure => path.append("/"),
    }
    push_decimal(&mut path, id as u64);
    path.append("/index.html");
    assert(path@ =~= report_path(project@, branch@, line@, id, kind));
    path
}

/// The highest number among the names of `entries`, or 0 when none is a
/// number.
pub fn latest_numbered(entries: &Vec<DirEntry>) -> (max: u32)
    ensures
        max == highest_number(entry_names(listing_view(entries@))),
{
    let mut max: u32 = 0;
    let mut i: usize = 0;
    let ghost all = entry_names(listing_view(entries@));
    assert(all.take(0) =~= Seq::<Seq<char>>::empty());
    while i < entries.len()
        invariant
            i <= entries.len(),
            all == entry_names(listing_view(entries@)),
            max == highest_number(all.take(i as int)),
        decreases entries.len() - i,
    {
        proof {
            assert(all.take(i + 1).drop_last() =~= all.take(i as int));
            assert(all.take(i + 1).last() == entries@[i as int].name@);
        }
        match parse_u32(entries[i].name.as_str()) {
            Some(v) => {
                if v > max {
                    max = v;
                }
            },
            None => {},
        }
        i = i + 1;
    }
    assert(all.take(i as int) =~= all);
    max
}

/// The name of the sub-directory of a line that holds its raw versions.
pub fn raw_dir_name() -> (name: &'static str)
    ensures
        name@ == "raw"@,
{
    "raw"
}

/// Whether a directory named `raw` is among `entries`.
pub fn holds_raw_dir(entries: &Vec<DirEntry>) -> (b: bool)
    ensures
        b == has_raw_dir(listing_view(entries@)),
{
    let ghost all = listing_view(entries@);
    let mut i: usize = 0;
    while i < entries.len()
        invariant
            i <= entries.len(),
            all == listing_view(entries@),
            forall|k: int|
                0 <= k < i ==> !((#[trigger] all[k]).kind == EntryKind::Dir && all[k].name
                    == "raw"@),
        decreases entries.len() - i,
    {
        let entry = &entries[i];
        assert(all[i as int] == entry@);
        match entry.kind {
            EntryKind::Dir => {
                if str_eq(entry.name.as_str(), raw_dir_name()) {
                    return true;
                }
            },
            _ => {},
        }
        i = i + 1;
    }
    false
}

/// Appends to `reports` the entries of one entry at the level of report
/// lines.
pub fn push_line_reports(
    project: &str,
    branch: &str,
    line: &LineDir,
    reports: &mut Vec<ReportDescriptor>,
)
    ensures
        descriptor_views(final(reports)@) == descriptor_views(old(reports)@) + line_descriptors(
            project@,
            branch@,
            line@,
        ),
{
    let ghost start = descriptor_views(reports@);
    let name = line.name.as_str();
    let is_line = match line.kind {
        EntryKind::Dir => parse_u32(name).is_none(),
        _ => false,
    };
    if !is_line {
        assert(start + Seq::<DescriptorView>::empty() =~= start);
        return ;
    }
    let max = latest_numbered(&line.children);
    if max > 0 {
        let entry = ReportDescriptor {
            name: String::from_str(name),
            id: max,
            path: build_report_path(project, branch, name, max, ReportType::Allure),
            kind: ReportType::Allure,
        };
        reports.push(entry);
        assert(descriptor_views(reports@) =~= start + latest_descriptor(project@, branch@, line@));
    } else {
        assert(start + Seq::<DescriptorView>::empty() =~= start);
    }
    let ghost middle = descriptor_views(reports@);
    if holds_raw_dir(&line.children) {
        let ghost names = texts(line.raw@);
        let mut i: usize = 0;
        assert(names.take(0) =~= Seq::<Seq<char>>::empty());
        assert(middle + Seq::<DescriptorView>::empty() =~= middle);
        while i < line.raw.len()
            invariant
                i <= line.raw.len(),
                names == texts(line.raw@),
                name@ == line.name@,
                descriptor_views(reports@) == middle + raw_descriptors(
                    project@,
                    branch@,
                    name@,
                    names.take(i as int),
                ),
            decreases line.raw.len() - i,
        {
            proof {
                assert(names.take(i + 1).drop_last() =~= names.take(i as int));
                assert(names.take(i + 1).last() == line.raw@[i as int]@);
            }
            let ghost shown = descriptor_views(reports@);
            match parse_u32(line.raw[i].as_str()) {
                Some(id) => {
                    if id >= 1 {
                        let mut label = String::from_str(name);
                        label.append(" (Raw)");
                        let entry = ReportDescriptor {
                            name: label,
                            id,
                            path: build_report_path(project, branch, name, id, ReportType::Raw),
                            kind: ReportType::Raw,
                        };
                        reports.push(entry);
                        assert(descriptor_views(reports@) =~= shown.push(
                            raw_descriptor(project@, branch@, name@, id),
                        ));
                        assert(shown.push(raw_descriptor(project@, branch@, name@, id)) =~= middle
                            + raw_descriptors(project@, branch@, name@, names.take(i + 1)));
                    }
                },
                None => {},
            }
            i = i + 1;
        }
        assert(names.take(i as int) =~= names);
        assert(descriptor_views(reports@) =~= start + line_descriptors(project@, branch@, line@));
    } else {
        assert(middle + Seq::<DescriptorView>::empty() =~= middle);
        assert(descriptor_views(reports@) =~= start + line_descriptors(project@, branch@, line@));
    }
}

/// The entries of one entry at the level of branches, in the order of the
/// scan.
pub fn branch_reports(project: &str, branch: &BranchDir) -> (reports: Vec<ReportDescriptor>)
    ensures
        descriptor_views(reports@) == reports_of_branch(project@, branch@),
{
    let mut reports: Vec<ReportDescriptor> = Vec::new();
    assert(descriptor_views(reports@) =~= Seq::<DescriptorView>::empty());
    match branch.kind {
        EntryKind::Dir => {},
        _ => {
            return reports;
        },
    }
    let ghost lines = line_views(branch.lines@);
    let mut i: usize = 0;
    assert(lines.take(0) =~= Seq::<LineView>::empty());
    while i < branch.lines.len()
        invariant
            i <= branch.lines.len(),
            lines == line_views(branch.lines@),
            descriptor_views(reports@) == branch_descriptors(
                project@,
                branch.name@,
                lines.take(i as int),
            ),
        decreases branch.lines.len() - i,
    {
        proof {
            assert(lines.take(i + 1).drop_last() =~= lines.take(i as int));
            assert(lines.take(i + 1).last() == branch.lines@[i as int]@);
        }
        push_line_reports(project, branch.name.as_str(), &branch.lines[i], &mut reports);
        i = i + 1;
    }
    assert(lines.take(i as int) =~= lines);
    reports
}

/// The branches of one entry at the level of projects that have entries.
pub fn project_branches(project: &ProjectDir) -> (branches: OrderedMap<Vec<ReportDescriptor>>)
    ensures
        branches.wf(),
        branch_map_view(branches@) == branches_of_project(project@),
{
    let mut branches: OrderedMap<Vec<ReportDescriptor>> = OrderedMap::new();
    assert(branch_map_view(branches@) =~= Map::empty());
    match project.kind {
        EntryKind::Dir => {},
        _ => {
            return branches;
        },
    }
    let ghost all = branch_views(project.branches@);
    let mut i: usize = 0;
    assert(all.take(0) =~= Seq::<BranchView>::empty());
    while i < project.branches.len()
        invariant
            i <= project.branches.len(),
            all == branch_views(project.branches@),
            branches.wf(),
            branch_map_view(branches@) == branches_of(project.name@, all.take(i as int)),
        decreases project.branches.len() - i,
    {
        proof {
            assert(all.take(i + 1).drop_last() =~= all.take(i as int));
            assert(all.take(i + 1).last() == project.branches@[i as int]@);
        }
        let branch = &project.branches[i];
        let reports = branch_reports(project.name.as_str(), branch);
        if reports.len() > 0 {
            let ghost before = branches@;
            branches.insert(branch.name.clone(), reports);
            assert(branch_map_view(before.insert(branch.name@, reports)) =~= branch_map_view(
                before,
            ).insert(branch.name@, descriptor_views(reports@)));
        }
        i = i + 1;
    }
    assert(all.take(i as int) =~= all);
    branches
}

/// Builds the catalogue of the storage tree whose root holds the entries
/// `projects`.
///
/// Projects and branches come out sorted by name. The reports of a branch
/// keep the order of the scan. A branch is listed only with at least one
/// report, a project only with at least one such branch.
pub fn get_manifest(projects: &Vec<ProjectDir>) -> (catalog: Catalog)
    ensures
        catalog.wf(),
        catalog@ == catalog_of(project_views(projects@)),
{
    let mut listed: OrderedMap<OrderedMap<Vec<ReportDescriptor>>> = OrderedMap::new();
    let ghost all = project_views(projects@);
    let mut i: usize = 0;
    assert(all.take(0) =~= Seq::<ProjectView>::empty());
    assert(project_map_view(listed@) =~= Map::empty());
    while i < projects.len()
        invariant
            i <= projects.len(),
            all == project_views(projects@),
            listed.wf(),
            forall|k: Seq<char>| #[trigger] listed@.dom().contains(k) ==> listed@[k].wf(),
            project_map_view(listed@) == catalog_of(all.take(i as int)),
        decreases projects.len() - i,
    {
        proof {
            assert(all.take(i + 1).drop_last() =~= all.take(i as int));
            assert(all.take(i + 1).last() == projects@[i as int]@);
        }
        let project = &projects[i];
        let branches = project_branches(project);
        let empty = branches.is_empty();
        proof {
            if empty {
                assert(branch_map_view(branches@) =~= Map::empty());
            } else {
                lemma_map_of_entry(branches.entries@, 0);
                let k = branches.entries@[0].0@;
                assert(branch_map_view(branches@).dom().contains(k));
                assert(!(branch_map_view(branches@) =~= Map::empty()));
            }
        }
        if !empty {
            let ghost before = listed@;
            listed.insert(project.name.clone(), branches);
            assert(project_map_view(before.insert(project.name@, branches)) =~= project_map_view(
                before,
            ).insert(project.name@, branch_map_view(branches@)));
        }
        i = i + 1;
    }
    assert(all.take(i as int) =~= all);
    let catalog = Catalog { projects: listed };
    proof {
        assert forall|j: int| 0 <= j < catalog.projects.entries@.len() implies (
        #[trigger] catalog.projects.entries@[j]).1.wf() by {
            lemma_map_of_entry(catalog.projects.entries@, j);
        }
    }
    catalog
}

// ---------------------------------------------------------------------
// Laws of the catalogue
// ---------------------------------------------------------------------

/// The highest number bounds every numbered name, and is the number of
/// one of the names unless it is 0.
pub proof fn lemma_highest_number(names: Seq<Seq<char>>)
    ensures
        highest_number(names) <= u32::MAX,
        forall|i: int|
            0 <= i < names.len() ==> (parsed_u32(#[trigger] names[i]) matches Some(v) ==> v
                <= highest_number(names)),
        highest_number(names) > 0 ==> exists|i: int|
            0 <= i < names.len() && parsed_u32(#[trigger] names[i]) == Some(
                highest_number(names) as u32,
            ),
    decreases names.len(),
{
    if names.len() > 0 {
        let rest = names.drop_last();
        lemma_highest_number(rest);
        let h = highest_number(names);
        assert forall|i: int| 0 <= i < names.len() implies (parsed_u32(
            #[trigger] names[i],
        ) matches Some(v) ==> v <= h) by {
            if i < names.len() - 1 {
                assert(rest[i] == names[i]);
            }
        }
        if h > 0 {
            if h == highest_number(rest) {
                let i = choose|i: int|
                    0 <= i < rest.len() && parsed_u32(#[trigger] rest[i]) == Some(h as u32);
                assert(rest[i] == names[i]);
            } else {
                assert(parsed_u32(names[names.len() - 1]) == Some(h as u32));
            }
        }
    }
}

/// What a descriptor `d` says of the line from which it comes: its number
/// is at least 1 and is the number of an entry that the line holds. A
/// rendered descriptor bears the name of the line and the highest number
/// among the entries of the line. A raw one bears the marked name, and its
/// number is that of an entry of the raw directory of the line.
pub open spec fn describes(
    project: Seq<char>,
    branch: Seq<char>,
    line: LineView,
    d: DescriptorView,
) -> bool {
    &&& is_report_line(line)
    &&& d.id >= 1
    &&& d.path == report_path(project, branch, line.name, d.id, d.kind)
    &&& match d.kind {
        ReportType::Allure => {
            &&& d.name == line.name
            &&& d.id == highest_number(entry_names(line.children))
            &&& exists|c: int|
                0 <= c < line.children.len() && parsed_u32((#[trigger] line.children[c]).name)
                    == Some(d.id)
        },
        ReportType::Raw => {
            &&& d.name == line.name + " (Raw)"@
            &&& has_raw_dir(line.children)
            &&& exists|c: int|
                0 <= c < line.raw.len() && parsed_u32(#[trigger] line.raw[c]) == Some(d.id)
        },
    }
}

/// Every raw entry stands for a version of the raw directory, and every
/// version of the raw directory has its entry.
pub proof fn lemma_raw_entries_are_stored(
    project: Seq<char>,
    branch: Seq<char>,
    line: Seq<char>,
    names: Seq<Seq<char>>,
)
    ensures
        forall|k: int|
            0 <= k < raw_descriptors(project, branch, line, names).len() ==> {
                let d = #[trigger] raw_descriptors(project, branch, line, names)[k];
                &&& d.id >= 1
                &&& d == raw_descriptor(project, branch, line, d.id)
                &&& exists|i: int|
                    0 <= i < names.len() && parsed_u32(#[trigger] names[i]) == Some(d.id)
            },
        forall|i: int|
            0 <= i < names.len() ==> (raw_version(#[trigger] names[i]) matches Some(id)
                ==> raw_descriptors(project, branch, line, names).contains(
                raw_descriptor(project, branch, line, id),
            )),
    decreases names.len(),
{
    if names.len() > 0 {
        let rest = names.drop_last();
        lemma_raw_entries_are_stored(project, branch, line, rest);
        let all = raw_descriptors(project, branch, line, names);
        let shorter = raw_descriptors(project, branch, line, rest);
        assert forall|k: int| 0 <= k < all.len() implies ({
            let d = #[trigger] all[k];
            &&& d.id >= 1
            &&& d == raw_descriptor(project, branch, line, d.id)
            &&& exists|i: int|
                0 <= i < names.len() && parsed_u32(#[trigger] names[i]) == Some(d.id)
        }) by {
            let d = all[k];
            if k < shorter.len() {
                assert(all[k] == shorter[k]);
                let i = choose|i: int|
                    0 <= i < rest.len() && parsed_u32(#[trigger] rest[i]) == Some(d.id);
                assert(rest[i] == names[i]);
            } else {
                assert(parsed_u32(names[names.len() - 1]) == Some(d.id));
            }
        }
        assert forall|i: int| 0 <= i < names.len() implies (raw_version(
            #[trigger] names[i],
        ) matches Some(id) ==> all.contains(raw_descriptor(project, branch, line, id))) by {
            if raw_version(names[i]) is Some {
                let id = raw_version(names[i])->0;
                let d = raw_descriptor(project, branch, line, id);
                if i < names.len() - 1 {
                    assert(rest[i] == names[i]);
                    assert(shorter.contains(d));
                    let k = choose|k: int| 0 <= k < shorter.len() && shorter[k] == d;
                    assert(all[k] == d);
                } else {
                    assert(all[all.len() - 1] == d);
                }
            }
        }
    }
}

/// A line shows its latest version and all its raw versions, and nothing
/// else: every entry of a line describes it, a line without a numbered
/// entry above 0 has no rendered entry, and a line without a version in
/// its raw directory has no raw entry.
pub proof fn lemma_line_shows_latest_version(project: Seq<char>, branch: Seq<char>, line: LineView)
    ensures
        forall|k: int|
            0 <= k < line_descriptors(project, branch, line).len() ==> describes(
                project,
                branch,
                line,
                #[trigger] line_descriptors(project, branch, line)[k],
            ),
        forall|c: int|
            0 <= c < line.children.len() ==> (parsed_u32(
                (#[trigger] line.children[c]).name,
            ) matches Some(v) ==> v <= highest_number(entry_names(line.children))),
        is_report_line(line) && highest_number(entry_names(line.children)) > 0
            ==> line_descriptors(project, branch, line).contains(
            rendered_descriptor(
                project,
                branch,
                line.name,
                highest_number(entry_names(line.children)) as u32,
            ),
        ),
        forall|c: int|
            0 <= c < line.raw.len() && is_report_line(line) && has_raw_dir(line.children) ==> (
            raw_version(#[trigger] line.raw[c]) matches Some(id) ==> line_descriptors(
                project,
                branch,
                line,
            ).contains(raw_descriptor(project, branch, line.name, id))),
{
    let names = entry_names(line.children);
    lemma_highest_number(names);
    lemma_raw_entries_are_stored(project, branch, line.name, line.raw);
    let all = line_descriptors(project, branch, line);
    let latest = latest_descriptor(project, branch, line);
    let raws = stored_raw_descriptors(project, branch, line);
    assert forall|c: int| 0 <= c < line.children.len() implies (parsed_u32(
        (#[trigger] line.children[c]).name,
    ) matches Some(v) ==> v <= highest_number(names)) by {
        assert(names[c] == line.children[c].name);
    }
    if is_report_line(line) {
        let h = highest_number(names);
        if h > 0 {
            let i = choose|i: int|
                0 <= i < names.len() && parsed_u32(#[trigger] names[i]) == Some(h as u32);
            assert(parsed_u32(line.children[i].name) == Some(h as u32));
            assert(all[0] == rendered_descriptor(project, branch, line.name, h as u32));
        }
        assert forall|k: int| 0 <= k < all.len() implies describes(
            project,
            branch,
            line,
            #[trigger] all[k],
        ) by {
            if k < latest.len() {
                assert(all[k] == latest[k]);
            } else {
                assert(all[k] == raws[k - latest.len()]);
                let d = raws[k - latest.len()];
                assert(d == raw_descriptor(project, branch, line.name, d.id));
            }
        }
        assert forall|c: int|
            0 <= c < line.raw.len() && has_raw_dir(line.children) implies (raw_version(
            #[trigger] line.raw[c],
        ) matches Some(id) ==> all.contains(raw_descriptor(project, branch, line.name, id))) by {
            if raw_version(line.raw[c]) is Some {
                let d = raw_descriptor(project, branch, line.name, raw_version(line.raw[c])->0);
                assert(raws.contains(d));
                let k = choose|k: int| 0 <= k < raws.len() && raws[k] == d;
                assert(all[latest.len() + k] == d);
            }
        }
    }
}

/// Whether `d` describes a line of a branch directory named `branch`
/// of a project directory named `project` in the tree.
pub open spec fn is_listed_from(
    projects: Seq<ProjectView>,
    project: Seq<char>,
    branch: Seq<char>,
    d: DescriptorView,
) -> bool {
    exists|i: int, j: int, l: int|
        #![trigger projects[i].branches[j].lines[l]]
        0 <= i < projects.len() && projects[i].kind == EntryKind::Dir && projects[i].name
            == project && 0 <= j < projects[i].branches.len() && projects[i].branches[j].kind
            == EntryKind::Dir && projects[i].branches[j].name == branch && 0 <= l
            < projects[i].branches[j].lines.len() && describes(
            project,
            branch,
            projects[i].branches[j].lines[l],
            d,
        )
}

/// Every entry of a branch describes one of its lines.
pub proof fn lemma_branch_entries_describe_lines(
    project: Seq<char>,
    branch: Seq<char>,
    lines: Seq<LineView>,
)
    ensures
        forall|k: int|
            0 <= k < branch_descriptors(project, branch, lines).len() ==> exists|l: int|
                0 <= l < lines.len() && describes(
                    project,
                    branch,
                    #[trigger] lines[l],
                    #[trigger] branch_descriptors(project, branch, lines)[k],
                ),
    decreases lines.len(),
{
    if lines.len() > 0 {
        let rest = lines.drop_last();
        lemma_branch_entries_describe_lines(project, branch, rest);
        lemma_line_shows_latest_version(project, branch, lines.last());
        let all = branch_descriptors(project, branch, lines);
        let shorter = branch_descriptors(project, branch, rest);
        let tail = line_descriptors(project, branch, lines.last());
        assert forall|k: int| 0 <= k < all.len() implies exists|l: int|
            0 <= l < lines.len() && describes(
                project,
                branch,
                #[trigger] lines[l],
                #[trigger] all[k],
            ) by {
            if k < shorter.len() {
                assert(all[k] == shorter[k]);
                let l = choose|l: int|
                    0 <= l < rest.len() && describes(
                        project,
                        branch,
                        #[trigger] rest[l],
                        shorter[k],
                    );
                assert(rest[l] == lines[l]);
                assert(describes(project, branch, lines[l], all[k]));
            } else {
                assert(all[k] == tail[k - shorter.len()]);
                assert(describes(project, branch, lines[lines.len() - 1], all[k]));
            }
        }
    }
}

/// Every listed branch of a project is one of its branch directories,
/// with the entries of that directory, of which there is at least one.
pub proof fn lemma_branches_have_reports(project: Seq<char>, branches: Seq<BranchView>)
    ensures
        forall|b: Seq<char>| #[trigger]
            branches_of(project, branches).dom().contains(b) ==> {
                &&& branches_of(project, branches)[b].len() > 0
                &&& exists|j: int|
                    0 <= j < branches.len() && (#[trigger] branches[j]).kind == EntryKind::Dir
                        && branches[j].name == b && branches_of(project, branches)[b]
                        == branch_descriptors(project, b, branches[j].lines)
            },
    decreases branches.len(),
{
    if branches.len() > 0 {
        let shorter = branches.drop_last();
        lemma_branches_have_reports(project, shorter);
        let rest = branches_of(project, shorter);
        let last = branches.last();
        let reports = reports_of_branch(project, last);
        let all = branches_of(project, branches);
        assert forall|b: Seq<char>| #[trigger] all.dom().contains(b) implies ({
            &&& all[b].len() > 0
            &&& exists|j: int|
                0 <= j < branches.len() && (#[trigger] branches[j]).kind == EntryKind::Dir
                    && branches[j].name == b && all[b] == branch_descriptors(
                    project,
                    b,
                    branches[j].lines,
                )
        }) by {
            if reports.len() > 0 && b == last.name {
                assert(all[b] == reports);
                assert(branches[branches.len() - 1].kind == EntryKind::Dir);
            } else {
                assert(rest.dom().contains(b));
                assert(all[b] == rest[b]);
                let j = choose|j: int|
                    0 <= j < shorter.len() && (#[trigger] shorter[j]).kind == EntryKind::Dir
                        && shorter[j].name == b && rest[b] == branch_descriptors(
                        project,
                        b,
                        shorter[j].lines,
                    );
                assert(branches[j] == shorter[j]);
            }
        }
    }
}

/// Every listed project is one of the project directories, with the
/// listed branches of that directory, of which there is at least one.
pub proof fn lemma_catalog_has_no_empty_entry(projects: Seq<ProjectView>)
    ensures
        forall|p: Seq<char>| #[trigger]
            catalog_of(projects).dom().contains(p) ==> {
                &&& exists|b: Seq<char>| catalog_of(projects)[p].dom().contains(b)
                &&& forall|b: Seq<char>| #[trigger]
                    catalog_of(projects)[p].dom().contains(b) ==> catalog_of(projects)[p][b].len()
                        > 0
                &&& exists|i: int|
                    0 <= i < projects.len() && (#[trigger] projects[i]).kind == EntryKind::Dir
                        && projects[i].name == p && catalog_of(projects)[p] == branches_of(
                        p,
                        projects[i].branches,
                    )
            },
    decreases projects.len(),
{
    if projects.len() > 0 {
        let shorter = projects.drop_last();
        lemma_catalog_has_no_empty_entry(shorter);
        let last = projects.last();
        lemma_branches_have_reports(last.name, last.branches);
        let branches = branches_of_project(last);
        let rest = catalog_of(shorter);
        let all = catalog_of(projects);
        if !(branches =~= Map::empty()) {
            assert(exists|b: Seq<char>| branches.dom().contains(b)) by {
                if forall|b: Seq<char>| !branches.dom().contains(b) {
                    assert(branches =~= Map::empty());
                }
            }
        }
        assert forall|p: Seq<char>| #[trigger] all.dom().contains(p) implies ({
            &&& exists|b: Seq<char>| all[p].dom().contains(b)
            &&& forall|b: Seq<char>| #[trigger] all[p].dom().contains(b) ==> all[p][b].len() > 0
            &&& exists|i: int|
                0 <= i < projects.len() && (#[trigger] projects[i]).kind == EntryKind::Dir
                    && projects[i].name == p && all[p] == branches_of(p, projects[i].branches)
        }) by {
            if !(branches =~= Map::empty()) && p == last.name {
                assert(all[p] == branches);
                assert(projects[projects.len() - 1].kind == EntryKind::Dir);
            } else {
                assert(rest.dom().contains(p));
                assert(all[p] == rest[p]);
                let i = choose|i: int|
                    0 <= i < shorter.len() && (#[trigger] shorter[i]).kind == EntryKind::Dir
                        && shorter[i].name == p && rest[p] == branches_of(p, shorter[i].branches);
                assert(projects[i] == shorter[i]);
            }
        }
    }
}

/// Every descriptor of the catalogue names a version that is stored: it
/// describes a line of a branch directory of a project directory of the
/// tree, under the names by which the catalogue lists it. Its number is at
/// least 1 and is the number of an entry of that line or of its raw
/// directory, and for a rendered line it is the highest number there.
pub proof fn lemma_catalog_lists_stored_versions(projects: Seq<ProjectView>)
    ensures
        forall|p: Seq<char>, b: Seq<char>, k: int|
            #![trigger catalog_of(projects)[p][b][k]]
            catalog_of(projects).dom().contains(p) && catalog_of(projects)[p].dom().contains(b)
                && 0 <= k < catalog_of(projects)[p][b].len() ==> is_listed_from(
                projects,
                p,
                b,
                catalog_of(projects)[p][b][k],
            ),
{
    lemma_catalog_has_no_empty_entry(projects);
    let all = catalog_of(projects);
    assert forall|p: Seq<char>, b: Seq<char>, k: int|
        #![trigger all[p][b][k]]
        all.dom().contains(p) && all[p].dom().contains(b) && 0 <= k
            < all[p][b].len() implies is_listed_from(projects, p, b, all[p][b][k]) by {
        let i = choose|i: int|
            0 <= i < projects.len() && (#[trigger] projects[i]).kind == EntryKind::Dir
                && projects[i].name == p && all[p] == branches_of(p, projects[i].branches);
        let branches = projects[i].branches;
        lemma_branches_have_reports(p, branches);
        let j = choose|j: int|
            0 <= j < branches.len() && (#[trigger] branches[j]).kind == EntryKind::Dir
                && branches[j].name == b && branches_of(p, branches)[b] == branch_descriptors(
                p,
                b,
                branches[j].lines,
            );
        let lines = branches[j].lines;
        lemma_branch_entries_describe_lines(p, b, lines);
        let d = all[p][b][k];
        assert(d == branch_descriptors(p, b, lines)[k]);
        let l = choose|l: int|
            0 <= l < lines.len() && describes(
                p,
                b,
                #[trigger] lines[l],
                branch_descriptors(p, b, lines)[k],
            );
        assert(describes(p, b, projects[i].branches[j].lines[l], d));
    }
}

} // verus!
