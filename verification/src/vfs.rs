//! The path-resolution engine.
//!
//! A path is rewritten under an ordered table of mappings: each rule is
//! applied in turn, observing the output of the rules before it, in one
//! single pass. The platform prefix of the input is split off before the
//! rules run and restored on the final output.
use vstd::prelude::*;

use crate::path::{
    comp_ieq, parts_prefix_ieq, path_ieq, path_is_ancestor, rebase_model, PathModel, PathPrefix,
    VfsPath,
};

verus! {

/// What a rule does: `Redirect` substitutes `from` with `to`; `Mount` makes
/// `from` appear to be a child of `to`.
#[derive(Clone, Copy, Debug, PartialEq, Eq, Structural)]
pub enum MappingKind {
    Redirect,
    Mount,
}

/// The source path of a rule, tagged with what it stands for.
#[derive(Debug, PartialEq, Eq)]
pub enum MappingFrom {
    File(VfsPath),
    Folder(VfsPath),
}

impl Clone for MappingFrom {
    fn clone(&self) -> (r: Self)
        ensures
            r@ == self@,
    {
        match self {
            MappingFrom::File(p) => MappingFrom::File(p.clone()),
            MappingFrom::Folder(p) => MappingFrom::Folder(p.clone()),
        }
    }
}

/// The target path of a rule, tagged with what it stands for.
#[derive(Debug, PartialEq, Eq)]
pub enum MappingTo {
    File(VfsPath),
    Folder(VfsPath),
}

impl Clone for MappingTo {
    fn clone(&self) -> (r: Self)
        ensures
            r@ == self@,
    {
        match self {
            MappingTo::File(p) => MappingTo::File(p.clone()),
            MappingTo::Folder(p) => MappingTo::Folder(p.clone()),
        }
    }
}

/// Model of one tagged end of a mapping.
#[verifier::ext_equal]
pub ghost enum MappingEndModel {
    File(PathModel),
    Folder(PathModel),
}

impl View for MappingFrom {
    type V = MappingEndModel;

    open spec fn view(&self) -> MappingEndModel {
        match self {
            MappingFrom::File(p) => MappingEndModel::File(p@),
            MappingFrom::Folder(p) => MappingEndModel::Folder(p@),
        }
    }
}

impl View for MappingTo {
    type V = MappingEndModel;

    open spec fn view(&self) -> MappingEndModel {
        match self {
            MappingTo::File(p) => MappingEndModel::File(p@),
            MappingTo::Folder(p) => MappingEndModel::Folder(p@),
        }
    }
}

/// A single rewriting rule.
#[derive(Debug, PartialEq, Eq)]
pub struct Mapping {
    pub kind: MappingKind,
    pub from: MappingFrom,
    pub to: MappingTo,
}

impl Clone for Mapping {
    fn clone(&self) -> (r: Self)
        ensures
            r@ == self@,
    {
        Mapping { kind: self.kind, from: self.from.clone(), to: self.to.clone() }
    }
}

/// Model of a rewriting rule.
#[verifier::ext_equal]
pub ghost struct MappingModel {
    pub kind: MappingKind,
    pub from: MappingEndModel,
    pub to: MappingEndModel,
}

impl View for Mapping {
    type V = MappingModel;

    open spec fn view(&self) -> MappingModel {
        MappingModel { kind: self.kind, from: self.from@, to: self.to@ }
    }
}

impl DeepView for Mapping {
    type V = MappingModel;

    open spec fn deep_view(&self) -> MappingModel {
        self.view()
    }
}

/// An ordered table of rules. Order is significant: a later rule sees the
/// output of the earlier ones.
#[derive(Debug, PartialEq, Eq)]
pub struct Mappings {
    pub mappings: Vec<Mapping>,
}

impl Clone for Mappings {
    fn clone(&self) -> (r: Self)
        ensures
            r@ == self@,
    {
        let mut rules: Vec<Mapping> = Vec::new();
        let n = self.mappings.len();
        let mut i: usize = 0;
        while i < n
            invariant
                n == self@.len(),
                i <= n,
                rules@.len() == i,
                forall|k: int| #![auto] 0 <= k < i ==> rules@[k]@ == self@[k],
            decreases n - i,
        {
            rules.push(self.mappings[i].clone());
            i += 1;
        }
        assert(rules.deep_view() =~~= self@);
        Mappings { mappings: rules }
    }
}

impl View for Mappings {
    type V = Seq<MappingModel>;

    open spec fn view(&self) -> Seq<MappingModel> {
        self.mappings.deep_view()
    }
}

impl Mappings {
    /// The rules, in order.
    pub fn iter(&self) -> (r: &Vec<Mapping>)
        ensures
            r.deep_view() == self@,
    {
        &self.mappings
    }
}

impl Default for Mappings {
    /// An empty table.
    fn default() -> (r: Self)
        ensures
            r@ == Seq::<MappingModel>::empty(),
    {
        let r = Mappings { mappings: Vec::new() };
        assert(r@ =~= Seq::<MappingModel>::empty());
        r
    }
}

/// How resolution can fail.
#[derive(Clone, Copy, Debug, PartialEq, Eq, Structural)]
pub enum PathResolveError {
    InvalidMapping,
}

impl PathResolveError {
    /// A human-readable description of the error.
    pub fn message(&self) -> (r: String)
        ensures
            r@ == "Invalid VFS mapping"@,
    {
        String::from_str("Invalid VFS mapping")
    }
}

/// Whether a rule has one of the supported (kind, from-type, to-type)
/// combinations.
pub open spec fn mapping_valid(m: MappingModel) -> bool {
    match m.kind {
        MappingKind::Redirect => match (m.from, m.to) {
            (MappingEndModel::Folder(_), MappingEndModel::File(_)) => false,
            _ => true,
        },
        MappingKind::Mount => match (m.from, m.to) {
            (MappingEndModel::File(_), MappingEndModel::Folder(_)) => true,
            (MappingEndModel::Folder(_), MappingEndModel::Folder(_)) => true,
            _ => false,
        },
    }
}

/// Whether every rule of a table is supported.
pub open spec fn mappings_valid(ms: Seq<MappingModel>) -> bool {
    forall|i: int| 0 <= i < ms.len() ==> mapping_valid(#[trigger] ms[i])
}

/// Whether `cur` is `t / basename(f)`: the hit condition of a
/// `Mount`(File -> Folder) rule.
pub open spec fn mount_file_hit(cur: PathModel, f: PathModel, t: PathModel) -> bool {
    &&& cur.parts.len() > 0
    &&& f.parts.len() > 0
    &&& comp_ieq(cur.parts.last(), f.parts.last())
    &&& t.prefix == cur.prefix
    &&& t.parts.len() == cur.parts.len() - 1
    &&& parts_prefix_ieq(t.parts, cur.parts)
}

/// Whether `cur` lies under `t / basename(f)`, that child itself included:
/// the hit condition of a `Mount`(Folder -> Folder) rule, which makes the
/// folder `f` appear to be a child of `t` under its own basename.
pub open spec fn mount_folder_hit(cur: PathModel, f: PathModel, t: PathModel) -> bool {
    &&& f.parts.len() > 0
    &&& cur.parts.len() > t.parts.len()
    &&& t.prefix == cur.prefix
    &&& parts_prefix_ieq(t.parts, cur.parts)
    &&& comp_ieq(cur.parts[t.parts.len() as int], f.parts.last())
}

/// One step of resolution: the effect of a single rule on the current path.
/// `None` means the step fails with `InvalidMapping`: either the rule's
/// combination is unsupported, or a `Redirect`(File -> Folder) matched a path
/// without a basename.
pub open spec fn apply_mapping(cur: PathModel, m: MappingModel) -> Option<PathModel> {
    match m.kind {
        MappingKind::Redirect => match (m.from, m.to) {
            (MappingEndModel::File(f), MappingEndModel::File(t)) => Some(
                if path_ieq(cur, f) {
                    t
                } else {
                    cur
                },
            ),
            (MappingEndModel::File(f), MappingEndModel::Folder(t)) => if path_ieq(cur, f) {
                if cur.parts.len() == 0 {
                    None
                } else {
                    Some(PathModel { prefix: t.prefix, parts: t.parts.push(f.parts.last()) })
                }
            } else {
                Some(cur)
            },
            (MappingEndModel::Folder(f), MappingEndModel::Folder(t)) => Some(
                if path_is_ancestor(f, cur) {
                    rebase_model(cur, f.parts.len() as int, t)
                } else {
                    cur
                },
            ),
            (MappingEndModel::Folder(_), MappingEndModel::File(_)) => None,
        },
        MappingKind::Mount => match (m.from, m.to) {
            (MappingEndModel::File(f), MappingEndModel::Folder(t)) => Some(
                if mount_file_hit(cur, f, t) {
                    f
                } else {
                    cur
                },
            ),
            (MappingEndModel::Folder(f), MappingEndModel::Folder(t)) => Some(
                if mount_folder_hit(cur, f, t) {
                    rebase_model(cur, t.parts.len() + 1 as int, f)
                } else {
                    cur
                },
            ),
            (MappingEndModel::File(_), MappingEndModel::File(_)) => None,
            (MappingEndModel::Folder(_), MappingEndModel::File(_)) => None,
        },
    }
}

/// The rules of `ms` applied to `cur` in order, each observing the output of
/// the rules before it.
pub open spec fn resolve_steps(cur: PathModel, ms: Seq<MappingModel>) -> Option<PathModel>
    decreases ms.len(),
{
    if ms.len() == 0 {
        Some(cur)
    } else {
        match resolve_steps(cur, ms.drop_last()) {
            Some(q) => apply_mapping(q, ms.last()),
            None => None,
        }
    }
}

/// The core path handed to the rules: the platform prefix is split off.
pub open spec fn strip_prefix_model(p: PathModel) -> PathModel {
    PathModel { prefix: PathPrefix::Plain, parts: p.parts }
}

/// The input's platform prefix restored onto the final output: an
/// NT-prefixed input yields an NT-prefixed result, an extended-prefixed
/// input an extended-prefixed one; otherwise the output stands as-is.
pub open spec fn restore_prefix_model(orig: PathPrefix, q: PathModel) -> PathModel {
    match orig {
        PathPrefix::Plain => q,
        PathPrefix::Nt => PathModel { prefix: PathPrefix::Nt, parts: q.parts },
        PathPrefix::Extended => PathModel { prefix: PathPrefix::Extended, parts: q.parts },
    }
}

/// Full resolution of a path under a table: strip the prefix, run the rules
/// in order, restore the prefix. `None` stands for `InvalidMapping`.
pub open spec fn resolve_model(p: PathModel, ms: Seq<MappingModel>) -> Option<PathModel> {
    match resolve_steps(strip_prefix_model(p), ms) {
        Some(q) => Some(restore_prefix_model(p.prefix, q)),
        None => None,
    }
}

/// Unfolds one step at the back: running `i + 1` rules is running `i` rules
/// and then applying rule `i`.
proof fn lemma_steps_snoc(cur: PathModel, ms: Seq<MappingModel>, i: int)
    requires
        0 <= i < ms.len(),
    ensures
        resolve_steps(cur, ms.take(i + 1)) == (match resolve_steps(cur, ms.take(i)) {
            Some(q) => apply_mapping(q, ms[i]),
            None => None,
        }),
{
    assert(ms.take(i + 1).drop_last() =~= ms.take(i));
    assert(ms.take(i + 1).last() == ms[i]);
}

/// Once a prefix of the table has failed, every longer prefix fails too.
proof fn lemma_steps_none_persists(cur: PathModel, ms: Seq<MappingModel>, i: int, j: int)
    requires
        0 <= i <= j <= ms.len(),
        resolve_steps(cur, ms.take(i)) is None,
    ensures
        resolve_steps(cur, ms.take(j)) is None,
    decreases j - i,
{
    if j > i {
        lemma_steps_snoc(cur, ms, j - 1);
        lemma_steps_none_persists(cur, ms, i, j - 1);
    }
}

/// Case-insensitive path equality is reflexive.
proof fn lemma_path_ieq_refl(p: PathModel)
    ensures
        path_ieq(p, p),
{
}

/// Case-insensitive component-sequence equality is symmetric.
proof fn lemma_parts_ieq_sym(a: Seq<Seq<char>>, b: Seq<Seq<char>>)
    requires
        crate::path::parts_ieq(a, b),
    ensures
        crate::path::parts_ieq(b, a),
{
    assert forall|i: int| 0 <= i < b.len() implies comp_ieq(b[i], a[i]) by {
        assert(comp_ieq(a[i], b[i]));
    }
}

/// Law: resolution under the empty table is the identity.
pub proof fn lemma_resolve_empty(p: PathModel)
    ensures
        resolve_model(p, Seq::<MappingModel>::empty()) == Some(p),
{
    assert(restore_prefix_model(p.prefix, strip_prefix_model(p)) =~= p);
}

/// Law: a `Redirect`(File -> File) rule whose source and target are the same
/// path maps every input to an equal path: the output has the same prefix
/// and the same components up to ASCII case, and whenever the rule does not
/// match, the input comes back exactly unchanged.
pub proof fn lemma_identity_redirect(p: PathModel, m: MappingModel, f: PathModel)
    requires
        m.kind == MappingKind::Redirect,
        m.from == MappingEndModel::File(f),
        m.to == MappingEndModel::File(f),
    ensures
        resolve_model(p, seq![m]) matches Some(q) && path_ieq(q, p),
        !path_ieq(strip_prefix_model(p), f) ==> resolve_model(p, seq![m]) == Some(p),
{
    let core = strip_prefix_model(p);
    let s = seq![m];
    assert(s.len() == 1);
    assert(s.drop_last() =~= Seq::<MappingModel>::empty());
    assert(resolve_steps(core, s.drop_last()) == Some(core));
    assert(s.last() == m);
    assert(resolve_steps(core, s) == apply_mapping(core, m));
    if path_ieq(core, f) {
        let q = restore_prefix_model(p.prefix, f);
        lemma_parts_ieq_sym(core.parts, f.parts);
        assert(path_ieq(q, p));
    } else {
        assert(restore_prefix_model(p.prefix, core) =~= p);
        lemma_path_ieq_refl(p);
    }
}

/// Law: resolution preserves the platform prefix of the input: an
/// NT-prefixed path resolves to an NT-prefixed path, an extended-prefixed
/// path to an extended-prefixed one.
pub proof fn lemma_prefix_preserved(p: PathModel, ms: Seq<MappingModel>)
    ensures
        resolve_model(p, ms) matches Some(q) ==> {
            &&& p.prefix == PathPrefix::Nt ==> q.prefix == PathPrefix::Nt
            &&& p.prefix == PathPrefix::Extended ==> q.prefix == PathPrefix::Extended
        },
{
}

/// Law: resolution is a pure function of the path and the table: equal
/// inputs resolve to equal outputs, whoever asks and in whatever order.
pub proof fn lemma_resolve_deterministic(
    p1: PathModel,
    ms1: Seq<MappingModel>,
    p2: PathModel,
    ms2: Seq<MappingModel>,
)
    requires
        p1 == p2,
        ms1 == ms2,
    ensures
        resolve_model(p1, ms1) == resolve_model(p2, ms2),
{
}

/// A rule with an unsupported combination fails whatever the current path.
proof fn lemma_apply_invalid(cur: PathModel, m: MappingModel)
    requires
        !mapping_valid(m),
    ensures
        apply_mapping(cur, m) is None,
{
}

/// Running a table that holds an unsupported rule fails.
proof fn lemma_steps_invalid(cur: PathModel, ms: Seq<MappingModel>)
    requires
        !mappings_valid(ms),
    ensures
        resolve_steps(cur, ms) is None,
    decreases ms.len(),
{
    let i = choose|i: int| 0 <= i < ms.len() && !mapping_valid(#[trigger] ms[i]);
    if i == ms.len() - 1 {
        match resolve_steps(cur, ms.drop_last()) {
            Some(q) => {
                lemma_apply_invalid(q, ms.last());
            },
            None => {},
        }
    } else {
        assert(!mapping_valid(ms.drop_last()[i]));
        lemma_steps_invalid(cur, ms.drop_last());
    }
}

/// Law: if any rule of the table has a disallowed (kind, from-type, to-type)
/// combination, resolution fails with `InvalidMapping`, whatever the path.
pub proof fn lemma_invalid_mapping(p: PathModel, ms: Seq<MappingModel>)
    requires
        !mappings_valid(ms),
    ensures
        resolve_model(p, ms) is None,
{
    lemma_steps_invalid(strip_prefix_model(p), ms);
}

/// Turn a 'virtual' path into a real one, as determined by the given table.
///
/// The input should be a canonical path: the algorithm compares paths
/// component-wise and does not deal with relative components.
pub fn resolve_path(path: &VfsPath, mappings: &Mappings) -> (r: Result<
    VfsPath,
    PathResolveError,
>)
    ensures
        (match resolve_model(path@, mappings@) {
            Some(q) => r matches Ok(v) && v@ == q,
            None => r matches Err(PathResolveError::InvalidMapping),
        }),
{
    _resolve_path(path, mappings)
}

/// The real path-resolution function, separated out for the sake of
/// testability.
pub fn _resolve_path(path: &VfsPath, mappings: &Mappings) -> (r: Result<
    VfsPath,
    PathResolveError,
>)
    ensures
        (match resolve_model(path@, mappings@) {
            Some(q) => r matches Ok(v) && v@ == q,
            None => r matches Err(PathResolveError::InvalidMapping),
        }),
{
    let ghost core = strip_prefix_model(path@);
    let mut current = path.with_prefix(PathPrefix::Plain);
    assert(current@ =~= core);
    let n = mappings.mappings.len();
    let mut i: usize = 0;
    while i < n
        invariant
            n == mappings@.len(),
            i <= n,
            core == strip_prefix_model(path@),
            resolve_steps(core, mappings@.take(i as int)) == Some(current@),
        decreases n - i,
    {
        let m = &mappings.mappings[i];
        proof {
            lemma_steps_snoc(core, mappings@, i as int);
        }
        match m.kind {
            MappingKind::Redirect => match (&m.from, &m.to) {
                (MappingFrom::File(f), MappingTo::File(t)) => {
                    if current.equivalent(f) {
                        current = t.clone();
                    }
                },
                (MappingFrom::File(f), MappingTo::Folder(t)) => {
                    if current.equivalent(f) {
                        match f.file_name() {
                            Some(name) => {
                                let next = t.child(name);
                                assert(next@ =~= (PathModel {
                                    prefix: t@.prefix,
                                    parts: t@.parts.push(f@.parts.last()),
                                }));
                                current = next;
                            },
                            None => {
                                proof {
                                    lemma_steps_none_persists(core, mappings@, i + 1, n as int);
                                    assert(mappings@.take(n as int) =~= mappings@);
                                }
                                return Err(PathResolveError::InvalidMapping);
                            },
                        }
                    }
                },
                (MappingFrom::Folder(f), MappingTo::Folder(t)) => {
                    if f.is_ancestor_of(&current) {
                        current = VfsPath::rebased(&current, f.len(), t);
                    }
                },
                (MappingFrom::Folder(_), MappingTo::File(_)) => {
                    proof {
                        lemma_steps_none_persists(core, mappings@, i + 1, n as int);
                        assert(mappings@.take(n as int) =~= mappings@);
                    }
                    return Err(PathResolveError::InvalidMapping);
                },
            },
            MappingKind::Mount => match (&m.from, &m.to) {
                (MappingFrom::File(f), MappingTo::Folder(t)) => {
                    let hit = match (current.file_name(), f.file_name()) {
                        (Some(cname), Some(fname)) => crate::path::str_ieq(
                            cname.as_str(),
                            fname.as_str(),
                        ) && t.len() == current.len() - 1 && t.is_ancestor_of(&current),
                        _ => false,
                    };
                    assert(hit == mount_file_hit(current@, f@, t@));
                    if hit {
                        current = f.clone();
                    }
                },
                (MappingFrom::Folder(f), MappingTo::Folder(t)) => {
                    let hit = f.len() > 0 && t.len() < current.len() && t.is_ancestor_of(&current)
                        && crate::path::str_ieq(
                        current.components[t.components.len()].as_str(),
                        f.components[f.components.len() - 1].as_str(),
                    );
                    assert(hit == mount_folder_hit(current@, f@, t@));
                    if hit {
                        current = VfsPath::rebased(&current, t.len() + 1, f);
                    }
                },
                (MappingFrom::File(_), MappingTo::File(_)) => {
                    proof {
                        lemma_steps_none_persists(core, mappings@, i + 1, n as int);
                        assert(mappings@.take(n as int) =~= mappings@);
                    }
                    return Err(PathResolveError::InvalidMapping);
                },
                (MappingFrom::Folder(_), MappingTo::File(_)) => {
                    proof {
                        lemma_steps_none_persists(core, mappings@, i + 1, n as int);
                        assert(mappings@.take(n as int) =~= mappings@);
                    }
                    return Err(PathResolveError::InvalidMapping);
                },
            },
        }
        i += 1;
    }
    assert(mappings@.take(n as int) =~= mappings@);
    match path.prefix {
        PathPrefix::Plain => Ok(current),
        PathPrefix::Nt => Ok(current.with_prefix(PathPrefix::Nt)),
        PathPrefix::Extended => Ok(current.with_prefix(PathPrefix::Extended)),
    }
}

} // verus!
