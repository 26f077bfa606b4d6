//! What stands against removing a worktree.
//!
//! Destroy, prune and the reclaiming of stale worktrees share one
//! classification, so that they agree on what may go. It is a function of
//! facts that the caller has gathered. A worktree can fall into several
//! classes at once, each with a flag of its own. What could not be checked
//! counts against the removal.

use vstd::prelude::*;
use vstd::string::*;

use crate::process::{copy_infos, info_views, ProcessInfo, ProcessInfoView};

verus! {

/// A managed worktree.
#[derive(Clone, Debug, PartialEq, Eq)]
pub struct WorktreeRef {
    pub name: String,
    pub path: String,
}

/// A reason against removing a worktree, or the lack of any.
#[derive(Clone, Copy, Debug, PartialEq, Eq, Hash, Structural)]
pub enum DestroyClass {
    Disposable,
    Leased,
    InUse,
    Dirty,
    Unmerged,
    Unverified,
}

impl DestroyClass {
    /// The name of the class.
    pub open spec fn name_spec(self) -> Seq<char> {
        match self {
            DestroyClass::Disposable => "disposable"@,
            DestroyClass::Leased => "leased"@,
            DestroyClass::InUse => "in-use"@,
            DestroyClass::Dirty => "dirty"@,
            DestroyClass::Unmerged => "unmerged"@,
            DestroyClass::Unverified => "unverified"@,
        }
    }

    /// The name of the class.
    pub fn name(self) -> (r: &'static str)
        ensures
            r@ == self.name_spec(),
    {
        match self {
            DestroyClass::Disposable => "disposable",
            DestroyClass::Leased => "leased",
            DestroyClass::InUse => "in-use",
            DestroyClass::Dirty => "dirty",
            DestroyClass::Unmerged => "unmerged",
            DestroyClass::Unverified => "unverified",
        }
    }
}

/// A set of classes, one bit for each.
#[derive(Clone, Copy, Debug, PartialEq, Eq, Structural)]
pub struct ClassSet {
    pub bits: u32,
}

/// The bit of a class.
pub open spec fn bit_spec(class: DestroyClass) -> u32 {
    match class {
        DestroyClass::Disposable => 1,
        DestroyClass::Leased => 2,
        DestroyClass::InUse => 4,
        DestroyClass::Dirty => 8,
        DestroyClass::Unmerged => 16,
        DestroyClass::Unverified => 32,
    }
}

impl View for ClassSet {
    type V = Set<DestroyClass>;

    open spec fn view(&self) -> Set<DestroyClass> {
        Set::new(|c: DestroyClass| self.bits & bit_spec(c) != 0)
    }
}

impl Default for ClassSet {
    fn default() -> (r: ClassSet)
        ensures
            r@ == Set::<DestroyClass>::empty(),
            r.wf(),
    {
        let r = ClassSet { bits: 0 };
        assert(forall|b: u32| 0u32 & b == 0) by (bit_vector);
        assert(r@ =~= Set::<DestroyClass>::empty());
        r
    }
}

impl ClassSet {
    /// Only bits of classes are set.
    pub open spec fn wf(self) -> bool {
        self.bits < 64
    }

    fn bit(class: DestroyClass) -> (r: u32)
        ensures
            r == bit_spec(class),
    {
        match class {
            DestroyClass::Disposable => 1,
            DestroyClass::Leased => 2,
            DestroyClass::InUse => 4,
            DestroyClass::Dirty => 8,
            DestroyClass::Unmerged => 16,
            DestroyClass::Unverified => 32,
        }
    }

    /// Adds a class.
    pub fn add(&mut self, class: DestroyClass)
        ensures
            final(self)@ == old(self)@.insert(class),
            old(self).wf() ==> final(self).wf(),
    {
        let ghost before = self.bits;
        let b: u32 = Self::bit(class);
        self.bits = self.bits | b;
        proof {
            let after = self.bits;
            assert forall|c: DestroyClass| after & bit_spec(c) != 0 <==> (before & bit_spec(c) != 0
                || c == class) by {
                let x = bit_spec(c);
                assert((before | b) & x == (before & x) | (b & x)) by (bit_vector);
                if c == class {
                    assert(x != 0 && x == b ==> (before & x) | (b & x) != 0) by (bit_vector);
                } else {
                    assert(b & x == 0) by {
                        assert((b == 1 || b == 2 || b == 4 || b == 8 || b == 16 || b == 32) && (x
                            == 1 || x == 2 || x == 4 || x == 8 || x == 16 || x == 32) && b != x
                            ==> b & x == 0) by (bit_vector);
                    }
                    assert(b & x == 0 ==> (before & x) | (b & x) == before & x) by (bit_vector);
                }
            }
            assert(self@ =~= old(self)@.insert(class));
            assert(before < 64 && b < 64 ==> (before | b) < 64) by (bit_vector);
        }
    }

    /// Whether the class is in the set.
    pub fn contains(&self, class: DestroyClass) -> (r: bool)
        ensures
            r == self@.contains(class),
    {
        self.bits & Self::bit(class) != 0
    }

    /// Whether no class is in the set.
    pub fn is_empty(&self) -> (r: bool)
        requires
            self.wf(),
        ensures
            r == (self@ == Set::<DestroyClass>::empty()),
    {
        proof {
            let bits = self.bits;
            assert(bits < 64 && bits & 1 == 0 && bits & 2 == 0 && bits & 4 == 0 && bits & 8 == 0
                && bits & 16 == 0 && bits & 32 == 0 ==> bits == 0) by (bit_vector);
            assert(forall|b: u32| 0u32 & b == 0) by (bit_vector);
            if bits == 0 {
                assert(self@ =~= Set::<DestroyClass>::empty());
            } else if self@ == Set::<DestroyClass>::empty() {
                assert(!self@.contains(DestroyClass::Disposable));
                assert(!self@.contains(DestroyClass::Leased));
                assert(!self@.contains(DestroyClass::InUse));
                assert(!self@.contains(DestroyClass::Dirty));
                assert(!self@.contains(DestroyClass::Unmerged));
                assert(!self@.contains(DestroyClass::Unverified));
            }
        }
        self.bits == 0
    }

    /// Whether the worktree holds work that is not known to be merged.
    pub fn has_unlanded(&self) -> (r: bool)
        ensures
            r == unlanded(self@),
    {
        self.contains(DestroyClass::Dirty) || self.contains(DestroyClass::Unmerged)
            || self.contains(DestroyClass::Unverified)
    }
}

/// The worktree holds work that is not known to be merged.
pub open spec fn unlanded(classes: Set<DestroyClass>) -> bool {
    classes.contains(DestroyClass::Dirty) || classes.contains(DestroyClass::Unmerged)
        || classes.contains(DestroyClass::Unverified)
}

/// The classes that a removal accepts.
#[derive(Clone, Copy, Debug, PartialEq, Eq, Structural)]
pub struct DestroyOptions {
    /// The target was named: only then can a leased worktree go.
    pub allow_leased: bool,
    pub include_leased: bool,
    pub include_in_use: bool,
    pub include_unlanded: bool,
}

impl Default for DestroyOptions {
    fn default() -> (r: DestroyOptions)
        ensures
            r == (DestroyOptions {
                allow_leased: false,
                include_leased: false,
                include_in_use: false,
                include_unlanded: false,
            }),
    {
        DestroyOptions {
            allow_leased: false,
            include_leased: false,
            include_in_use: false,
            include_unlanded: false,
        }
    }
}

/// The flags that are missing for a target of these classes.
pub open spec fn missing(o: DestroyOptions, classes: Set<DestroyClass>) -> Seq<Seq<char>> {
    (if classes.contains(DestroyClass::Leased) && !(o.allow_leased && o.include_leased) {
        seq!["--include-leased"@]
    } else {
        seq![]
    }) + (if classes.contains(DestroyClass::InUse) && !o.include_in_use {
        seq!["--include-in-use"@]
    } else {
        seq![]
    }) + (if unlanded(classes) && !o.include_unlanded {
        seq!["--include-unlanded"@]
    } else {
        seq![]
    })
}

/// The texts of a list of literals.
pub open spec fn flag_views(v: Seq<&'static str>) -> Seq<Seq<char>> {
    v.map_values(|s: &'static str| s@)
}

impl DestroyOptions {
    /// The flags that are missing for a target of these classes: each class
    /// that is not accepted names its flag.
    pub fn missing_flags(&self, classes: &ClassSet) -> (r: Vec<&'static str>)
        ensures
            flag_views(r@) == missing(*self, classes@),
    {
        let mut missing_flags: Vec<&'static str> = Vec::new();
        if classes.contains(DestroyClass::Leased) {
            if !(self.allow_leased && self.include_leased) {
                missing_flags.push("--include-leased");
            }
        }
        if classes.contains(DestroyClass::InUse) && !self.include_in_use {
            missing_flags.push("--include-in-use");
        }
        if classes.has_unlanded() && !self.include_unlanded {
            missing_flags.push("--include-unlanded");
        }
        assert(flag_views(missing_flags@) =~= missing(*self, classes@));
        missing_flags
    }
}

/// The facts that a worktree is classified by.
#[derive(Clone, Debug, PartialEq, Eq)]
pub struct ClassCheckResults {
    /// Processes inside the worktree.
    pub processes: Vec<ProcessInfo>,
    /// `Some(true)` where the git metadata of the backing repository is gone.
    pub backing_repo_missing: Option<bool>,
    /// `Some(true)` where there are uncommitted or untracked changes.
    pub dirty: Option<bool>,
    /// `Some(true)` where HEAD is merged into the default ref.
    pub merged: Option<bool>,
    /// The ref to be merged into; empty where it could not be resolved.
    pub default_ref: String,
    /// The processes could not be listed.
    pub proc_scan_error: bool,
}

/// What [`ClassCheckResults`] say.
#[verifier::ext_equal]
pub struct CheckView {
    pub processes: Seq<ProcessInfoView>,
    pub backing_repo_missing: Option<bool>,
    pub dirty: Option<bool>,
    pub merged: Option<bool>,
    pub default_ref: Seq<char>,
    pub proc_scan_error: bool,
}

impl View for ClassCheckResults {
    type V = CheckView;

    open spec fn view(&self) -> CheckView {
        CheckView {
            processes: info_views(self.processes@),
            backing_repo_missing: self.backing_repo_missing,
            dirty: self.dirty,
            merged: self.merged,
            default_ref: self.default_ref@,
            proc_scan_error: self.proc_scan_error,
        }
    }
}

impl Default for ClassCheckResults {
    fn default() -> (r: ClassCheckResults)
        ensures
            r.processes@.len() == 0,
            r.backing_repo_missing is None,
            r.dirty is None,
            r.merged is None,
            r.default_ref@.len() == 0,
            !r.proc_scan_error,
    {
        ClassCheckResults {
            processes: Vec::new(),
            backing_repo_missing: None,
            dirty: None,
            merged: None,
            default_ref: String::new(),
            proc_scan_error: false,
        }
    }
}

/// A classified worktree: its classes, the first of them, and what that one
/// rests on.
#[derive(Clone, Debug, PartialEq, Eq)]
pub struct ClassifiedTarget {
    pub name: String,
    pub path: String,
    pub classes: ClassSet,
    pub class: DestroyClass,
    pub detail: String,
    /// Processes found inside the worktree.
    pub processes: Vec<ProcessInfo>,
}

/// A class and what it rests on.
pub struct Finding {
    pub class: DestroyClass,
    pub detail: Seq<char>,
}

/// One finding.
pub open spec fn finding(class: DestroyClass, detail: Seq<char>) -> Seq<Finding> {
    seq![Finding { class, detail }]
}

/// What the lease says against the removal.
pub open spec fn lease_findings(leased: bool, holder: Seq<char>) -> Seq<Finding> {
    if !leased {
        seq![]
    } else if holder.len() == 0 {
        finding(DestroyClass::Leased, seq![])
    } else {
        finding(DestroyClass::Leased, "held by "@ + holder)
    }
}

/// What the processes say against the removal.
pub open spec fn process_findings(owner_alive: bool, c: CheckView) -> Seq<Finding> {
    if owner_alive || c.processes.len() > 0 {
        finding(DestroyClass::InUse, ""@)
    } else if c.proc_scan_error {
        finding(DestroyClass::InUse, "cannot check processes"@)
    } else {
        seq![]
    }
}

/// What the state of the merge says against the removal.
pub open spec fn merge_findings(c: CheckView) -> Seq<Finding> {
    if c.default_ref.len() == 0 {
        finding(
            DestroyClass::Unverified,
            "cannot verify HEAD is merged into the default branch"@,
        )
    } else {
        match c.merged {
            Some(true) => seq![],
            Some(false) => finding(
                DestroyClass::Unmerged,
                "HEAD not merged into "@ + c.default_ref,
            ),
            None => finding(
                DestroyClass::Unverified,
                "cannot verify merge into "@ + c.default_ref,
            ),
        }
    }
}

/// What the contents of the worktree say against the removal.
pub open spec fn content_findings(c: CheckView) -> Seq<Finding> {
    if c.backing_repo_missing == Some(true) {
        finding(DestroyClass::Unverified, "backing repository missing"@)
    } else {
        match c.dirty {
            None => finding(DestroyClass::Unverified, "cannot check status"@),
            Some(true) => finding(DestroyClass::Dirty, "uncommitted changes"@) + merge_findings(c),
            Some(false) => merge_findings(c),
        }
    }
}

/// All that stands against removing the worktree, in order.
pub open spec fn findings(
    leased: bool,
    holder: Seq<char>,
    owner_alive: bool,
    c: CheckView,
) -> Seq<Finding> {
    lease_findings(leased, holder) + process_findings(owner_alive, c) + content_findings(c)
}

/// The classes of the findings.
pub open spec fn classes_of(fs: Seq<Finding>) -> Set<DestroyClass>
    decreases fs.len(),
{
    if fs.len() == 0 {
        Set::empty()
    } else {
        classes_of(fs.drop_last()).insert(fs.last().class)
    }
}

/// The class of the first finding.
pub open spec fn primary(fs: Seq<Finding>) -> DestroyClass {
    if fs.len() == 0 {
        DestroyClass::Disposable
    } else {
        fs[0].class
    }
}

/// What the first finding rests on.
pub open spec fn primary_detail(fs: Seq<Finding>) -> Seq<char> {
    if fs.len() == 0 {
        seq![]
    } else {
        fs[0].detail
    }
}

impl ClassifiedTarget {
    /// The target says what the findings say.
    pub open spec fn says(self, fs: Seq<Finding>) -> bool {
        &&& self.classes.wf()
        &&& self.classes@ == classes_of(fs)
        &&& self.class == primary(fs)
        &&& self.detail@ == primary_detail(fs)
    }

    fn add_class(&mut self, class: DestroyClass, detail: String, Ghost(fs): Ghost<Seq<Finding>>)
        requires
            old(self).says(fs),
            !classes_of(fs).contains(class),
        ensures
            final(self).says(fs + finding(class, detail@)),
            final(self).name == old(self).name,
            final(self).path == old(self).path,
            final(self).processes == old(self).processes,
    {
        let ghost more = fs + finding(class, detail@);
        proof {
            assert(more.drop_last() =~= fs);
            lemma_classes_empty(fs);
        }
        let first: bool = self.classes.is_empty();
        self.classes.add(class);
        if first {
            self.class = class;
            self.detail = detail;
        }
    }

    /// Whether nothing stands against removing the target.
    pub fn is_disposable(&self) -> (r: bool)
        ensures
            r == (forall|c: DestroyClass| c != DestroyClass::Disposable ==> !self.classes@.contains(c)),
    {
        let r: bool = !(self.classes.contains(DestroyClass::Leased) || self.classes.contains(
            DestroyClass::InUse,
        ) || self.classes.has_unlanded());
        proof {
            if r {
                assert forall|c: DestroyClass| c != DestroyClass::Disposable implies
                    !self.classes@.contains(c) by {}
            }
        }
        r
    }
}

proof fn lemma_classes_empty(fs: Seq<Finding>)
    ensures
        classes_of(fs) == Set::<DestroyClass>::empty() <==> fs.len() == 0,
{
    if fs.len() > 0 {
        assert(classes_of(fs).contains(fs.last().class));
    }
}

proof fn lemma_classes_of_one(class: DestroyClass, detail: Seq<char>)
    ensures
        classes_of(finding(class, detail)) == Set::<DestroyClass>::empty().insert(class),
{
    reveal_with_fuel(classes_of, 2);
    let fs = finding(class, detail);
    assert(fs.drop_last() =~= Seq::<Finding>::empty());
}

proof fn lemma_classes_of_sum(a: Seq<Finding>, b: Seq<Finding>)
    ensures
        classes_of(a + b) == classes_of(a).union(classes_of(b)),
    decreases b.len(),
{
    if b.len() == 0 {
        assert(a + b =~= a);
        assert(classes_of(a).union(Set::empty()) =~= classes_of(a));
    } else {
        lemma_classes_of_sum(a, b.drop_last());
        assert((a + b).drop_last() =~= a + b.drop_last());
        assert(classes_of(a + b) =~= classes_of(a).union(classes_of(b)));
    }
}

proof fn lemma_parts(leased: bool, holder: Seq<char>, owner_alive: bool, c: CheckView)
    ensures
        classes_of(lease_findings(leased, holder)) == if leased {
            set![DestroyClass::Leased]
        } else {
            Set::empty()
        },
        classes_of(process_findings(owner_alive, c)) == if owner_alive || c.processes.len() > 0
            || c.proc_scan_error {
            set![DestroyClass::InUse]
        } else {
            Set::empty()
        },
{
    lemma_classes_of_one(DestroyClass::Leased, seq![]);
    lemma_classes_of_one(DestroyClass::Leased, "held by "@ + holder);
    lemma_classes_of_one(DestroyClass::InUse, ""@);
    lemma_classes_of_one(DestroyClass::InUse, "cannot check processes"@);
}

/// Classifies a worktree by the facts in `checks`.
pub fn classify_for_destroy(
    name: &str,
    path: &str,
    leased: bool,
    lease_holder: &str,
    owner_alive: bool,
    checks: &ClassCheckResults,
) -> (r: ClassifiedTarget)
    ensures
        r.says(findings(leased, lease_holder@, owner_alive, checks@)),
        r.name@ == name@,
        r.path@ == path@,
        r.processes@ == checks.processes@,
{
    let mut target = ClassifiedTarget {
        name: name.to_owned(),
        path: path.to_owned(),
        classes: ClassSet::default(),
        class: DestroyClass::Disposable,
        detail: String::new(),
        processes: copy_infos(&checks.processes),
    };
    assert(info_views(checks.processes@).len() == checks.processes.len());
    let ghost none = Seq::<Finding>::empty();
    let ghost part1 = lease_findings(leased, lease_holder@);
    let ghost part2 = part1 + process_findings(owner_alive, checks@);
    let ghost all = findings(leased, lease_holder@, owner_alive, checks@);
    proof {
        reveal_strlit("");
        lemma_parts(leased, lease_holder@, owner_alive, checks@);
        lemma_classes_of_sum(part1, process_findings(owner_alive, checks@));
        assert(all =~= part2 + content_findings(checks@));
        assert(none + part1 =~= part1);
    }

    if leased {
        let detail = if lease_holder.is_empty() {
            String::new()
        } else {
            let mut s = "held by ".to_owned();
            s.append(lease_holder);
            s
        };
        assert(part1 =~= none + finding(DestroyClass::Leased, detail@));
        target.add_class(DestroyClass::Leased, detail, Ghost(none));
    }
    assert(target.says(part1));
    if owner_alive || checks.processes.len() > 0 {
        target.add_class(DestroyClass::InUse, "".to_owned(), Ghost(part1));
    } else if checks.proc_scan_error {
        target.add_class(DestroyClass::InUse, "cannot check processes".to_owned(), Ghost(part1));
    } else {
        assert(part2 =~= part1);
    }
    assert(target.says(part2));

    if let Some(true) = checks.backing_repo_missing {
        target.add_class(
            DestroyClass::Unverified,
            "backing repository missing".to_owned(),
            Ghost(part2),
        );
        return target;
    }
    let ghost mut part3 = part2;
    match checks.dirty {
        Some(true) => {
            target.add_class(DestroyClass::Dirty, "uncommitted changes".to_owned(), Ghost(part2));
            proof {
                part3 = part2 + finding(DestroyClass::Dirty, "uncommitted changes"@);
                lemma_classes_of_one(DestroyClass::Dirty, "uncommitted changes"@);
                lemma_classes_of_sum(
                    part2,
                    finding(DestroyClass::Dirty, "uncommitted changes"@),
                );
                assert(all =~= part3 + merge_findings(checks@));
            }
        },
        Some(false) => {},
        None => {
            target.add_class(
                DestroyClass::Unverified,
                "cannot check status".to_owned(),
                Ghost(part2),
            );
            return target;
        },
    }
    assert(all =~= part3 + merge_findings(checks@));
    if checks.default_ref.as_str().is_empty() {
        target.add_class(
            DestroyClass::Unverified,
            "cannot verify HEAD is merged into the default branch".to_owned(),
            Ghost(part3),
        );
        return target;
    }
    match checks.merged {
        Some(true) => {
            assert(all =~= part3);
        },
        Some(false) => {
            let mut s = "HEAD not merged into ".to_owned();
            s.append(&checks.default_ref);
            target.add_class(DestroyClass::Unmerged, s, Ghost(part3));
        },
        None => {
            let mut s = "cannot verify merge into ".to_owned();
            s.append(&checks.default_ref);
            target.add_class(DestroyClass::Unverified, s, Ghost(part3));
        },
    }
    target
}

// ---------- laws ----------

/// The classes that a worktree falls into are told by its facts alone, each
/// independently of the others.
pub proof fn law_classes(leased: bool, holder: Seq<char>, owner_alive: bool, c: CheckView)
    ensures
        ({
            let classes = classes_of(findings(leased, holder, owner_alive, c));
            let known = c.backing_repo_missing != Some(true) && c.dirty is Some;
            &&& !classes.contains(DestroyClass::Disposable)
            &&& classes.contains(DestroyClass::Leased) == leased
            &&& classes.contains(DestroyClass::InUse) == (owner_alive || c.processes.len() > 0
                || c.proc_scan_error)
            &&& classes.contains(DestroyClass::Dirty) == (known && c.dirty == Some(true))
            &&& classes.contains(DestroyClass::Unmerged) == (known && c.default_ref.len() > 0
                && c.merged == Some(false))
            &&& classes.contains(DestroyClass::Unverified) == (!known || c.default_ref.len() == 0
                || c.merged is None)
        }),
{
    lemma_parts(leased, holder, owner_alive, c);
    let a = lease_findings(leased, holder);
    let b = process_findings(owner_alive, c);
    lemma_classes_of_sum(a, b);
    lemma_classes_of_sum(a + b, content_findings(c));
    lemma_classes_of_one(DestroyClass::Unverified, "backing repository missing"@);
    lemma_classes_of_one(DestroyClass::Unverified, "cannot check status"@);
    lemma_classes_of_one(
        DestroyClass::Unverified,
        "cannot verify HEAD is merged into the default branch"@,
    );
    lemma_classes_of_one(DestroyClass::Unmerged, "HEAD not merged into "@ + c.default_ref);
    lemma_classes_of_one(DestroyClass::Unverified, "cannot verify merge into "@ + c.default_ref);
    lemma_classes_of_one(DestroyClass::Dirty, "uncommitted changes"@);
    lemma_classes_of_sum(
        finding(DestroyClass::Dirty, "uncommitted changes"@),
        merge_findings(c),
    );
}

/// Nothing stands against removing exactly the worktrees that are known to be
/// unleased, idle, clean and merged. What could not be checked is never among
/// them.
pub proof fn law_disposable_means_all_checked(
    leased: bool,
    holder: Seq<char>,
    owner_alive: bool,
    c: CheckView,
)
    ensures
        findings(leased, holder, owner_alive, c).len() == 0 <==> {
            &&& !leased
            &&& !owner_alive
            &&& c.processes.len() == 0
            &&& !c.proc_scan_error
            &&& c.backing_repo_missing != Some(true)
            &&& c.dirty == Some(false)
            &&& c.default_ref.len() > 0
            &&& c.merged == Some(true)
        },
{
}

/// No flag is missing exactly where each class is accepted; a leased worktree
/// is never accepted unless it was named.
pub proof fn law_no_missing_flag(o: DestroyOptions, classes: Set<DestroyClass>)
    ensures
        missing(o, classes).len() == 0 <==> {
            &&& classes.contains(DestroyClass::Leased) ==> o.allow_leased && o.include_leased
            &&& classes.contains(DestroyClass::InUse) ==> o.include_in_use
            &&& unlanded(classes) ==> o.include_unlanded
        },
        !o.allow_leased && classes.contains(DestroyClass::Leased) ==> missing(o, classes).len() > 0,
{
}

/// Each missing flag is named, once, in a fixed order, and no other is.
pub proof fn law_missing_flags_are_named(o: DestroyOptions, classes: Set<DestroyClass>)
    ensures
        ({
            let m = missing(o, classes);
            let leased = classes.contains(DestroyClass::Leased) && !(o.allow_leased
                && o.include_leased);
            let used = classes.contains(DestroyClass::InUse) && !o.include_in_use;
            let work = (classes.contains(DestroyClass::Dirty) || classes.contains(
                DestroyClass::Unmerged,
            ) || classes.contains(DestroyClass::Unverified)) && !o.include_unlanded;
            &&& m.contains("--include-leased"@) <==> leased
            &&& m.contains("--include-in-use"@) <==> used
            &&& m.contains("--include-unlanded"@) <==> work
            &&& m.len() == (if leased {
                1int
            } else {
                0
            }) + (if used {
                1int
            } else {
                0
            }) + (if work {
                1int
            } else {
                0
            })
            &&& leased ==> m[0] == "--include-leased"@
            &&& work ==> m.last() == "--include-unlanded"@
        }),
{
    reveal_strlit("--include-leased");
    reveal_strlit("--include-in-use");
    reveal_strlit("--include-unlanded");
    assert("--include-leased"@.len() == 16);
    assert("--include-in-use"@.len() == 16);
    assert("--include-unlanded"@.len() == 18);
    assert("--include-leased"@[10] != "--include-in-use"@[10]);
    let m = missing(o, classes);
    let leased = classes.contains(DestroyClass::Leased) && !(o.allow_leased && o.include_leased);
    let used = classes.contains(DestroyClass::InUse) && !o.include_in_use;
    let work = unlanded(classes) && !o.include_unlanded;
    if leased {
        assert(m[0] == "--include-leased"@);
    }
    if used {
        assert(m[if leased {
            1int
        } else {
            0
        }] == "--include-in-use"@);
    }
    if work {
        assert(m[m.len() - 1] == "--include-unlanded"@);
    }
}

/// A worktree is named for what weighs most: its lease, then its use, then
/// what is known of its work. It is disposable exactly if nothing stands
/// against its removal.
pub proof fn law_primary_class(leased: bool, holder: Seq<char>, owner_alive: bool, c: CheckView)
    ensures
        ({
            let p = primary(findings(leased, holder, owner_alive, c));
            let used = owner_alive || c.processes.len() > 0 || c.proc_scan_error;
            let gone = c.backing_repo_missing == Some(true);
            &&& leased ==> p == DestroyClass::Leased
            &&& !leased && used ==> p == DestroyClass::InUse
            &&& !leased && !used && (gone || c.dirty is None) ==> p == DestroyClass::Unverified
            &&& !leased && !used && !gone && c.dirty == Some(true) ==> p == DestroyClass::Dirty
            &&& !leased && !used && !gone && c.dirty == Some(false) ==> p == (
            if c.default_ref.len() == 0 || c.merged is None {
                DestroyClass::Unverified
            } else if c.merged == Some(false) {
                DestroyClass::Unmerged
            } else {
                DestroyClass::Disposable
            })
        }),
{
}

/// The two classes of bits are told apart: a set holds exactly the classes
/// that were put into it.
pub proof fn law_classes_have_their_own_bits(a: DestroyClass, b: DestroyClass)
    ensures
        bit_spec(a) & bit_spec(b) != 0 <==> a == b,
{
    assert(1u32 & 1u32 != 0 && 2u32 & 2u32 != 0 && 4u32 & 4u32 != 0 && 8u32 & 8u32 != 0 && 16u32
        & 16u32 != 0 && 32u32 & 32u32 != 0) by (bit_vector);
    assert(1u32 & 2u32 == 0 && 1u32 & 4u32 == 0 && 1u32 & 8u32 == 0 && 1u32 & 16u32 == 0 && 1u32
        & 32u32 == 0 && 2u32 & 1u32 == 0 && 2u32 & 4u32 == 0 && 2u32 & 8u32 == 0 && 2u32 & 16u32
        == 0 && 2u32 & 32u32 == 0 && 4u32 & 1u32 == 0 && 4u32 & 2u32 == 0 && 4u32 & 8u32 == 0
        && 4u32 & 16u32 == 0 && 4u32 & 32u32 == 0 && 8u32 & 1u32 == 0 && 8u32 & 2u32 == 0 && 8u32
        & 4u32 == 0 && 8u32 & 16u32 == 0 && 8u32 & 32u32 == 0 && 16u32 & 1u32 == 0 && 16u32 & 2u32
        == 0 && 16u32 & 4u32 == 0 && 16u32 & 8u32 == 0 && 16u32 & 32u32 == 0 && 32u32 & 1u32 == 0
        && 32u32 & 2u32 == 0 && 32u32 & 4u32 == 0 && 32u32 & 8u32 == 0 && 32u32 & 16u32 == 0)
        by (bit_vector);
}

/// What stands first against a removal is said in words: who holds the lease,
/// that processes cannot be told, that there are changes, or what the work is
/// not merged into.
pub proof fn law_primary_detail_says_why(
    leased: bool,
    holder: Seq<char>,
    owner_alive: bool,
    c: CheckView,
)
    ensures
        ({
            let d = primary_detail(findings(leased, holder, owner_alive, c));
            let used = owner_alive || c.processes.len() > 0;
            let free = !leased && !used && !c.proc_scan_error;
            let here = free && c.backing_repo_missing != Some(true);
            &&& leased && holder.len() > 0 ==> d == "held by "@ + holder
            &&& !leased && !used && c.proc_scan_error ==> d == "cannot check processes"@
            &&& free && c.backing_repo_missing == Some(true) ==> d == "backing repository missing"@
            &&& here && c.dirty is None ==> d == "cannot check status"@
            &&& here && c.dirty == Some(true) ==> d == "uncommitted changes"@
            &&& here && c.dirty == Some(false) && c.default_ref.len() > 0 && c.merged == Some(false)
                ==> d == "HEAD not merged into "@ + c.default_ref
            &&& here && c.dirty == Some(false) && c.default_ref.len() > 0 && c.merged is None ==> d
                == "cannot verify merge into "@ + c.default_ref
        }),
{
}

} // verus!
