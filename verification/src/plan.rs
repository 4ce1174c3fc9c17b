//! Planning a run: from the directories that were found, and the files in
//! each, to the groups of the run and the work to be done for every file.

use crate::group::{Group, GroupView};
use crate::paths::{
    extension, extension_of, file_name, file_name_of, free_of_separators, join, joined,
    with_extension, with_extension_of,
};
use crate::roster::{knows, roster_wf, Roster};
use crate::text::{same_text, shown};
use vstd::prelude::*;
use vstd::string::StringExecFns;

verus! {

/// What is done with a file.
#[derive(Clone, Copy, Debug, PartialEq, Eq, Structural)]
pub enum FileKind {
    /// Copied byte for byte.
    Copy,
    /// Decoded and written again as a lossless RGB image.
    Convert,
}

/// The directory name that is never a group: `.MISC`.
pub open spec fn reserved_name() -> Seq<char> {
    seq!['.', 'M', 'I', 'S', 'C']
}

/// The extension of the files that are converted: `HEIC`.
pub open spec fn convertible_extension() -> Seq<char> {
    seq!['H', 'E', 'I', 'C']
}

/// The extension that converted files get: `PNG`.
pub open spec fn converted_extension() -> Seq<char> {
    seq!['P', 'N', 'G']
}

/// A file is converted exactly when its extension is `HEIC`, in capitals.
pub open spec fn kind_of(extension: Option<Seq<char>>) -> FileKind {
    if extension == Some(convertible_extension()) {
        FileKind::Convert
    } else {
        FileKind::Copy
    }
}

/// Where a file goes: under its own name into the group's output directory,
/// with the extension changed if it is converted.
pub open spec fn destination_of(output_dir: Seq<char>, name: Seq<char>, kind: FileKind) -> Seq<char> {
    match kind {
        FileKind::Copy => joined(output_dir, name),
        FileKind::Convert => with_extension_of(joined(output_dir, name), converted_extension()),
    }
}

/// One file of a group: where it is, where it goes, and what is done with it.
pub struct WorkItem {
    pub group: usize,
    pub source: String,
    pub dest: String,
    pub kind: FileKind,
}

/// The mathematical content of a [`WorkItem`].
pub struct WorkItemView {
    pub group: usize,
    pub source: Seq<char>,
    pub dest: Seq<char>,
    pub kind: FileKind,
}

impl View for WorkItem {
    type V = WorkItemView;

    open spec fn view(&self) -> WorkItemView {
        WorkItemView { group: self.group, source: self.source@, dest: self.dest@, kind: self.kind }
    }
}

impl WorkItem {
    /// A copy of the item.
    pub fn duplicate(&self) -> (w: WorkItem)
        ensures
            w@ == self@,
    {
        WorkItem {
            group: self.group,
            source: self.source.clone(),
            dest: self.dest.clone(),
            kind: self.kind,
        }
    }
}

/// The work item for a file, if the file's path has a final component.
pub open spec fn item_of(group: usize, output_dir: Seq<char>, source: Seq<char>) -> Option<
    WorkItemView,
> {
    match file_name_of(source) {
        None => None,
        Some(name) => {
            let kind = kind_of(extension_of(source));
            Some(WorkItemView { group, source, dest: destination_of(output_dir, name, kind), kind })
        },
    }
}

/// The work items for the files of a group, in the order of the files, or
/// the first path among them that has no final component.
pub open spec fn items_of(group: usize, output_dir: Seq<char>, files: Seq<Seq<char>>) -> Result<
    Seq<WorkItemView>,
    Seq<char>,
>
    decreases files.len(),
{
    if files.len() == 0 {
        Ok(Seq::empty())
    } else {
        match items_of(group, output_dir, files.drop_last()) {
            Err(path) => Err(path),
            Ok(items) => match item_of(group, output_dir, files.last()) {
                None => Err(files.last()),
                Some(item) => Ok(items.push(item)),
            },
        }
    }
}

/// A directory as it was found: its path, and the paths of the files in it.
pub struct Listing {
    pub path: String,
    pub files: Vec<String>,
}

/// The mathematical content of a [`Listing`].
pub struct ListingView {
    pub path: Seq<char>,
    pub files: Seq<Seq<char>>,
}

/// The contents of a list of strings.
pub open spec fn texts(v: Seq<String>) -> Seq<Seq<char>> {
    v.map_values(|s: String| s@)
}

impl View for Listing {
    type V = ListingView;

    open spec fn view(&self) -> ListingView {
        ListingView { path: self.path@, files: texts(self.files@) }
    }
}

/// The contents of a list of listings.
pub open spec fn listing_views(v: Seq<Listing>) -> Seq<ListingView> {
    v.map_values(|l: Listing| l@)
}

/// The work of one group: its output directory and an item for every file.
pub struct Batch {
    pub group: usize,
    pub output_dir: String,
    pub items: Vec<WorkItem>,
}

/// The mathematical content of a [`Batch`].
pub struct BatchView {
    pub group: usize,
    pub output_dir: Seq<char>,
    pub items: Seq<WorkItemView>,
}

/// The contents of a list of work items.
pub open spec fn item_views(v: Seq<WorkItem>) -> Seq<WorkItemView> {
    v.map_values(|w: WorkItem| w@)
}

impl View for Batch {
    type V = BatchView;

    open spec fn view(&self) -> BatchView {
        BatchView {
            group: self.group,
            output_dir: self.output_dir@,
            items: item_views(self.items@),
        }
    }
}

/// The contents of a list of batches.
pub open spec fn batch_views(v: Seq<Batch>) -> Seq<BatchView> {
    v.map_values(|b: Batch| b@)
}

/// What a directory becomes: nothing if it bears the reserved name, else a
/// group named after it, with one file to do for every file found, and the
/// batch of its work items. A path without a final component, the
/// directory's or a file's, is an error.
pub open spec fn batch_of(id: usize, output: Seq<char>, listing: ListingView) -> Result<
    Option<(GroupView, BatchView)>,
    Seq<char>,
> {
    match file_name_of(listing.path) {
        None => Err(listing.path),
        Some(name) => if name == reserved_name() {
            Ok(None)
        } else {
            let output_dir = joined(output, name);
            match items_of(id, output_dir, listing.files) {
                Err(path) => Err(path),
                Ok(items) => Ok(
                    Some(
                        (
                            GroupView::fresh(name, listing.files.len()),
                            BatchView { group: id, output_dir, items },
                        ),
                    ),
                ),
            }
        },
    }
}

/// The outcome of planning: the groups of the run and, for each of them, in
/// the same order, its batch.
pub struct Plan {
    pub roster: Roster,
    pub batches: Vec<Batch>,
}

/// The mathematical content of a [`Plan`].
pub struct PlanView {
    pub groups: Seq<(usize, GroupView)>,
    pub batches: Seq<BatchView>,
}

impl View for Plan {
    type V = PlanView;

    open spec fn view(&self) -> PlanView {
        PlanView { groups: self.roster@, batches: batch_views(self.batches@) }
    }
}

/// Why no plan could be made.
pub enum PlanError {
    /// The path has no final component to name a group or a file after.
    Unnamed { path: String },
}

impl PlanError {
    /// The path that the error is about.
    pub open spec fn path(self) -> Seq<char> {
        match self {
            PlanError::Unnamed { path } => path@,
        }
    }

    /// What the message of the error says before the path.
    pub open spec fn preamble() -> Seq<char> {
        "no final component in path: "@
    }

    /// The error in words.
    pub fn message(&self) -> (text: String)
        ensures
            text@ == Self::preamble() + self.path(),
    {
        match self {
            PlanError::Unnamed { path } => String::from_str("no final component in path: ").concat(
                path.as_str(),
            ),
        }
    }
}

/// The plan for the directories found, taken in order. A directory's
/// identifier is its position among all that were found, the reserved one
/// included. The first path without a final component is an error.
pub open spec fn plan_of(output: Seq<char>, listings: Seq<ListingView>) -> Result<
    PlanView,
    Seq<char>,
>
    decreases listings.len(),
{
    if listings.len() == 0 {
        Ok(PlanView { groups: Seq::empty(), batches: Seq::empty() })
    } else {
        match plan_of(output, listings.drop_last()) {
            Err(path) => Err(path),
            Ok(plan) => match batch_of((listings.len() - 1) as usize, output, listings.last()) {
                Err(path) => Err(path),
                Ok(None) => Ok(plan),
                Ok(Some((group, batch))) => Ok(
                    PlanView {
                        groups: plan.groups.push(((listings.len() - 1) as usize, group)),
                        batches: plan.batches.push(batch),
                    },
                ),
            },
        }
    }
}

/// Every identifier is below `bound`.
pub open spec fn ids_below(groups: Seq<(usize, GroupView)>, bound: int) -> bool {
    forall|k: int| 0 <= k < groups.len() ==> (#[trigger] groups[k]).0 < bound
}

/// A plan is in step with itself: a batch for every group and in the same
/// order, as many items as the group has files, every item under its group's
/// identifier, every group fresh, and the identifiers ascending.
pub open spec fn plan_in_step(plan: PlanView) -> bool {
    &&& plan.groups.len() == plan.batches.len()
    &&& forall|k: int|
        0 <= k < plan.groups.len() ==> {
            &&& (#[trigger] plan.batches[k]).group == plan.groups[k].0
            &&& plan.groups[k].1 == GroupView::fresh(
                plan.groups[k].1.name,
                plan.batches[k].items.len(),
            )
        }
    &&& forall|k: int, j: int|
        0 <= k < plan.batches.len() && 0 <= j < plan.batches[k].items.len() ==> (
        #[trigger] plan.batches[k].items[j]).group == plan.batches[k].group
    &&& forall|k: int, l: int|
        0 <= k < l < plan.groups.len() ==> (#[trigger] plan.groups[k]).0 < (
        #[trigger] plan.groups[l]).0
}

/// The items of a group are as many as its files, and all under its
/// identifier.
pub proof fn lemma_items_shape(group: usize, output_dir: Seq<char>, files: Seq<Seq<char>>)
    ensures
        match items_of(group, output_dir, files) {
            Ok(items) => items.len() == files.len() && forall|j: int|
                0 <= j < items.len() ==> (#[trigger] items[j]).group == group,
            Err(_) => true,
        },
    decreases files.len(),
{
    if files.len() > 0 {
        lemma_items_shape(group, output_dir, files.drop_last());
    }
}

/// Every plan is in step with itself, its groups form a consistent roster,
/// and their identifiers are positions among the directories found.
pub proof fn lemma_plan_shape(output: Seq<char>, listings: Seq<ListingView>)
    requires
        listings.len() <= usize::MAX,
    ensures
        match plan_of(output, listings) {
            Ok(plan) => plan_in_step(plan) && ids_below(plan.groups, listings.len() as int)
                && roster_wf(plan.groups),
            Err(_) => true,
        },
    decreases listings.len(),
{
    if listings.len() > 0 {
        let front = listings.drop_last();
        lemma_plan_shape(output, front);
        let id = (listings.len() - 1) as usize;
        if let Ok(before) = plan_of(output, front) {
            if let Ok(Some((group, batch))) = batch_of(id, output, listings.last()) {
                let name = file_name_of(listings.last().path)->0;
                lemma_items_shape(id, joined(output, name), listings.last().files);
                let plan = plan_of(output, listings)->Ok_0;
                assert forall|k: int| 0 <= k < plan.groups.len() implies {
                    &&& (#[trigger] plan.batches[k]).group == plan.groups[k].0
                    &&& plan.groups[k].1 == GroupView::fresh(
                        plan.groups[k].1.name,
                        plan.batches[k].items.len(),
                    )
                } by {
                    if k < before.groups.len() {
                        assert(plan.batches[k] == before.batches[k]);
                        assert(plan.groups[k] == before.groups[k]);
                    }
                }
                assert forall|k: int| 0 <= k < plan.groups.len() implies (
                #[trigger] plan.groups[k]).0 < listings.len() by {
                    if k < before.groups.len() {
                        assert(plan.groups[k] == before.groups[k]);
                    }
                }
                assert forall|k: int, j: int|
                    0 <= k < plan.batches.len() && 0 <= j < plan.batches[k].items.len() implies (
                #[trigger] plan.batches[k].items[j]).group == plan.batches[k].group by {
                    if k < before.batches.len() {
                        assert(plan.batches[k] == before.batches[k]);
                    }
                }
                assert forall|k: int, l: int| 0 <= k < l < plan.groups.len() implies (
                #[trigger] plan.groups[k]).0 < (#[trigger] plan.groups[l]).0 by {
                    assert(plan.groups[k] == before.groups[k]);
                    if l < before.groups.len() {
                        assert(plan.groups[l] == before.groups[l]);
                    }
                }
                assert forall|k: int| 0 <= k < plan.groups.len() implies (
                #[trigger] plan.groups[k]).1.wf() by {
                    if k < before.groups.len() {
                        assert(plan.groups[k] == before.groups[k]);
                    }
                }
            }
        }
    }
}

/// A path without a final component among the first files is the error for
/// all of the files.
proof fn lemma_items_error_stays(
    group: usize,
    output_dir: Seq<char>,
    files: Seq<Seq<char>>,
    n: int,
)
    requires
        0 <= n <= files.len(),
        items_of(group, output_dir, files.take(n)) is Err,
    ensures
        items_of(group, output_dir, files) == items_of(group, output_dir, files.take(n)),
    decreases files.len() - n,
{
    if n < files.len() {
        assert(files.take(n + 1).drop_last() =~= files.take(n));
        lemma_items_error_stays(group, output_dir, files, n + 1);
    } else {
        assert(files.take(n) =~= files);
    }
}

/// An error among the first directories is the error for all of them.
proof fn lemma_plan_error_stays(output: Seq<char>, listings: Seq<ListingView>, n: int)
    requires
        0 <= n <= listings.len(),
        plan_of(output, listings.take(n)) is Err,
    ensures
        plan_of(output, listings) == plan_of(output, listings.take(n)),
    decreases listings.len() - n,
{
    if n < listings.len() {
        assert(listings.take(n + 1).drop_last() =~= listings.take(n));
        lemma_plan_error_stays(output, listings, n + 1);
    } else {
        assert(listings.take(n) =~= listings);
    }
}

/// What is done with a file of the given extension.
pub fn classify(extension: Option<&str>) -> (kind: FileKind)
    ensures
        kind == kind_of(shown(extension)),
{
    proof {
        reveal_strlit("HEIC");
        assert("HEIC"@ =~= convertible_extension());
    }
    match extension {
        Some(e) => if same_text(e, "HEIC") {
            FileKind::Convert
        } else {
            FileKind::Copy
        },
        None => FileKind::Copy,
    }
}

/// Where a file of the given name and kind goes.
pub fn destination(output_dir: &str, name: &str, kind: FileKind) -> (dest: String)
    ensures
        dest@ == destination_of(output_dir@, name@, kind),
{
    let plain = join(output_dir, name);
    match kind {
        FileKind::Copy => plain,
        FileKind::Convert => {
            proof {
                reveal_strlit("PNG");
                assert("PNG"@ =~= converted_extension());
                assert(free_of_separators("PNG"@));
            }
            with_extension(plain.as_str(), "PNG")
        },
    }
}

/// Whether a directory is a group: it has a name, and not the reserved one.
/// The files of any other directory need not be listed.
pub open spec fn is_group_path(path: Seq<char>) -> bool {
    match file_name_of(path) {
        Some(name) => name != reserved_name(),
        None => false,
    }
}

/// Whether the directory at `path` is a group.
pub fn is_group_dir(path: &str) -> (b: bool)
    ensures
        b == is_group_path(path@),
{
    proof {
        reveal_strlit(".MISC");
        assert(".MISC"@ =~= reserved_name());
    }
    match file_name(path) {
        Some(name) => !same_text(name, ".MISC"),
        None => false,
    }
}

/// The work item for one file of a group, unless the file's path has no
/// final component.
pub fn work_item(group: usize, output_dir: &str, source: &str) -> (item: Option<WorkItem>)
    ensures
        match item {
            Some(w) => item_of(group, output_dir@, source@) == Some(w@),
            None => item_of(group, output_dir@, source@) is None,
        },
{
    match file_name(source) {
        None => None,
        Some(name) => {
            let kind = classify(extension(source));
            let dest = destination(output_dir, name, kind);
            Some(WorkItem { group, source: source.to_owned(), dest, kind })
        },
    }
}

/// The work items for the files of a group, or the first path among them
/// that has no final component.
pub fn work_items(group: usize, output_dir: &str, files: &Vec<String>) -> (r: Result<
    Vec<WorkItem>,
    PlanError,
>)
    ensures
        match r {
            Ok(items) => items_of(group, output_dir@, texts(files@)) == Ok::<
                Seq<WorkItemView>,
                Seq<char>,
            >(item_views(items@)),
            Err(e) => items_of(group, output_dir@, texts(files@)) == Err::<
                Seq<WorkItemView>,
                Seq<char>,
            >(e.path()),
        },
{
    let mut items: Vec<WorkItem> = Vec::new();
    let mut i: usize = 0;
    proof {
        assert(texts(files@).take(0) =~= Seq::<Seq<char>>::empty());
        assert(item_views(items@) =~= Seq::<WorkItemView>::empty());
    }
    while i < files.len()
        invariant
            i <= files.len(),
            items_of(group, output_dir@, texts(files@).take(i as int)) == Ok::<
                Seq<WorkItemView>,
                Seq<char>,
            >(item_views(items@)),
        decreases files.len() - i,
    {
        let ghost all = texts(files@);
        proof {
            assert(all.take(i + 1).drop_last() =~= all.take(i as int));
            assert(all.take(i + 1).last() == files@[i as int]@);
        }
        match work_item(group, output_dir, files[i].as_str()) {
            None => {
                proof {
                    lemma_items_error_stays(group, output_dir@, all, i + 1);
                }
                return Err(PlanError::Unnamed { path: files[i].clone() });
            },
            Some(item) => {
                let ghost before = items@;
                items.push(item);
                proof {
                    assert(item_views(items@) =~= item_views(before).push(item@));
                }
            },
        }
        i = i + 1;
    }
    proof {
        assert(texts(files@).take(i as int) =~= texts(files@));
    }
    Ok(items)
}

/// Plans one directory under the identifier `id`.
pub fn plan_directory(id: usize, output: &str, listing: &Listing) -> (r: Result<
    Option<(Group, Batch)>,
    PlanError,
>)
    ensures
        match r {
            Ok(Some(pair)) => batch_of(id, output@, listing@) == Ok::<
                Option<(GroupView, BatchView)>,
                Seq<char>,
            >(Some((pair.0@, pair.1@))),
            Ok(None) => batch_of(id, output@, listing@) == Ok::<
                Option<(GroupView, BatchView)>,
                Seq<char>,
            >(None),
            Err(e) => batch_of(id, output@, listing@) == Err::<
                Option<(GroupView, BatchView)>,
                Seq<char>,
            >(e.path()),
        },
{
    proof {
        reveal_strlit(".MISC");
        assert(".MISC"@ =~= reserved_name());
    }
    match file_name(listing.path.as_str()) {
        None => Err(PlanError::Unnamed { path: listing.path.clone() }),
        Some(name) => {
            if same_text(name, ".MISC") {
                return Ok(None);
            }
            let output_dir = join(output, name);
            match work_items(id, output_dir.as_str(), &listing.files) {
                Err(e) => Err(e),
                Ok(items) => {
                    let group = Group::new(name.to_owned(), listing.files.len());
                    Ok(Some((group, Batch { group: id, output_dir, items })))
                },
            }
        },
    }
}

/// Plans the run for the directories found, in the order in which they were
/// found, with `output` as the root of the output directories.
pub fn plan(output: &str, listings: &Vec<Listing>) -> (r: Result<Plan, PlanError>)
    ensures
        match r {
            Ok(p) => plan_of(output@, listing_views(listings@)) == Ok::<PlanView, Seq<char>>(p@)
                && p.roster.wf() && plan_in_step(p@) && ids_below(
                p@.groups,
                listings@.len() as int,
            ),
            Err(e) => plan_of(output@, listing_views(listings@)) == Err::<PlanView, Seq<char>>(
                e.path(),
            ),
        },
{
    let mut roster = Roster::new();
    let mut batches: Vec<Batch> = Vec::new();
    let mut i: usize = 0;
    let ghost all = listing_views(listings@);
    proof {
        assert(all.take(0) =~= Seq::<ListingView>::empty());
        assert(batch_views(batches@) =~= Seq::<BatchView>::empty());
    }
    while i < listings.len()
        invariant
            i <= listings.len(),
            all == listing_views(listings@),
            roster.wf(),
            plan_of(output@, all.take(i as int)) == Ok::<PlanView, Seq<char>>(
                PlanView { groups: roster@, batches: batch_views(batches@) },
            ),
        decreases listings.len() - i,
    {
        proof {
            assert(all.take(i + 1).drop_last() =~= all.take(i as int));
            assert(all.take(i + 1).last() == listings@[i as int]@);
            lemma_plan_shape(output@, all.take(i as int));
        }
        match plan_directory(i, output, &listings[i]) {
            Err(e) => {
                proof {
                    lemma_plan_error_stays(output@, all, i + 1);
                }
                return Err(e);
            },
            Ok(None) => {},
            Ok(Some((group, batch))) => {
                let ghost before = batches@;
                proof {
                    if knows(roster@, i) {
                        let k = choose|k: int| 0 <= k < roster@.len() && (#[trigger] roster@[k]).0 == i;
                        assert(roster@[k].0 < i);
                    }
                }
                roster.enroll(i, group);
                batches.push(batch);
                proof {
                    assert(batch_views(batches@) =~= batch_views(before).push(batch@));
                }
            },
        }
        i = i + 1;
    }
    proof {
        assert(all.take(i as int) =~= all);
        lemma_plan_shape(output@, all);
    }
    Ok(Plan { roster, batches })
}

} // verus!
