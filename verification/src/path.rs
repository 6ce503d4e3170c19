//! Component-wise path model.
//!
//! Paths are sequences of components plus an optional platform prefix. All
//! equality and prefix relations between paths are component-wise and ignore
//! ASCII case, matching the default host filesystem; any deviation from that
//! policy must be documented where it is made.
use vstd::prelude::*;

verus! {

/// Platform path qualifier recognised in front of a path.
///
/// `Nt` is the kernel object-namespace prefix (`\??\`), `Extended` the
/// extended-length prefix (`\\?\`); `Plain` means neither.
#[derive(Clone, Copy, Debug, PartialEq, Eq, Structural)]
pub enum PathPrefix {
    Plain,
    Nt,
    Extended,
}

/// Mathematical model of a path: its prefix and its components, each a
/// sequence of characters.
#[verifier::ext_equal]
pub ghost struct PathModel {
    pub prefix: PathPrefix,
    pub parts: Seq<Seq<char>>,
}

/// A path held as its components, with the platform prefix split off.
#[derive(Debug, PartialEq, Eq)]
pub struct VfsPath {
    pub prefix: PathPrefix,
    pub components: Vec<String>,
}

impl Clone for VfsPath {
    fn clone(&self) -> (r: Self)
        ensures
            r@ == self@,
    {
        VfsPath { prefix: self.prefix, components: self.components.clone() }
    }
}

impl View for VfsPath {
    type V = PathModel;

    open spec fn view(&self) -> PathModel {
        PathModel { prefix: self.prefix, parts: self.components.deep_view() }
    }
}

/// Numeric value of a character with ASCII upper-case letters folded to
/// lower case; all other characters are left as they are.
pub open spec fn lower(c: char) -> int {
    if 65 <= c as u32 && c as u32 <= 90 {
        c as u32 + 32
    } else {
        c as u32 as int
    }
}

/// Case-insensitive equality of two components.
pub open spec fn comp_ieq(a: Seq<char>, b: Seq<char>) -> bool {
    a.len() == b.len() && forall|i: int| 0 <= i < a.len() ==> lower(a[i]) == lower(b[i])
}

/// Case-insensitive equality of two component sequences.
pub open spec fn parts_ieq(a: Seq<Seq<char>>, b: Seq<Seq<char>>) -> bool {
    a.len() == b.len() && forall|i: int| 0 <= i < a.len() ==> comp_ieq(a[i], b[i])
}

/// Case-insensitive prefix relation: `anc` is the leading part of `p`.
pub open spec fn parts_prefix_ieq(anc: Seq<Seq<char>>, p: Seq<Seq<char>>) -> bool {
    anc.len() <= p.len() && forall|i: int| 0 <= i < anc.len() ==> comp_ieq(anc[i], p[i])
}

/// Path equality: same prefix, components equal ignoring ASCII case.
pub open spec fn path_ieq(a: PathModel, b: PathModel) -> bool {
    a.prefix == b.prefix && parts_ieq(a.parts, b.parts)
}

/// `anc` is an ancestor of `p` (a path is an ancestor of itself).
pub open spec fn path_is_ancestor(anc: PathModel, p: PathModel) -> bool {
    anc.prefix == p.prefix && parts_prefix_ieq(anc.parts, p.parts)
}

/// The path obtained by replacing the first `from_len` components of `p`
/// with `to`: it keeps `to`'s prefix and appends the remainder of `p`.
pub open spec fn rebase_model(p: PathModel, from_len: int, to: PathModel) -> PathModel {
    PathModel { prefix: to.prefix, parts: to.parts + p.parts.skip(from_len) }
}

/// Whether a character separates path components.
pub open spec fn is_sep(c: char) -> bool {
    c == '/' || c == '\\'
}

/// The components of `s` from position `i` on, with `cur` the partial
/// component read so far: maximal runs of non-separator characters, so that
/// repeated separators collapse and leading or trailing ones vanish.
pub open spec fn split_acc(s: Seq<char>, i: int, cur: Seq<char>) -> Seq<Seq<char>>
    decreases s.len() - i,
    when 0 <= i <= s.len()
{
    if i >= s.len() {
        if cur.len() == 0 {
            seq![]
        } else {
            seq![cur]
        }
    } else if is_sep(s[i]) {
        if cur.len() == 0 {
            split_acc(s, i + 1, seq![])
        } else {
            seq![cur] + split_acc(s, i + 1, seq![])
        }
    } else {
        split_acc(s, i + 1, cur.push(s[i]))
    }
}

/// The components of a path string.
pub open spec fn split_components(s: Seq<char>) -> Seq<Seq<char>> {
    split_acc(s, 0, seq![])
}

/// Whether the string opens with the kernel object-namespace prefix: a
/// separator, two question marks, a separator.
pub open spec fn has_nt_prefix(s: Seq<char>) -> bool {
    s.len() >= 4 && is_sep(s[0]) && s[1] == '?' && s[2] == '?' && is_sep(s[3])
}

/// Whether the string opens with the extended-length prefix: two
/// separators, a question mark, a separator.
pub open spec fn has_extended_prefix(s: Seq<char>) -> bool {
    s.len() >= 4 && is_sep(s[0]) && is_sep(s[1]) && s[2] == '?' && is_sep(s[3])
}

/// What parsing a path string yields: the platform prefix split off and the
/// rest cut into components.
pub open spec fn parse_model(s: Seq<char>) -> PathModel {
    if has_nt_prefix(s) {
        PathModel { prefix: PathPrefix::Nt, parts: split_components(s.skip(4)) }
    } else if has_extended_prefix(s) {
        PathModel { prefix: PathPrefix::Extended, parts: split_components(s.skip(4)) }
    } else {
        PathModel { prefix: PathPrefix::Plain, parts: split_components(s) }
    }
}

/// The characters a prefix renders as.
pub open spec fn prefix_chars(p: PathPrefix) -> Seq<char> {
    match p {
        PathPrefix::Plain => Seq::empty(),
        PathPrefix::Nt => r"\??\"@,
        PathPrefix::Extended => r"\\?\"@,
    }
}

/// Components joined with backslashes.
pub open spec fn join_components(parts: Seq<Seq<char>>) -> Seq<char>
    decreases parts.len(),
{
    if parts.len() == 0 {
        Seq::empty()
    } else if parts.len() == 1 {
        parts[0]
    } else {
        join_components(parts.drop_last()) + seq!['\\'] + parts.last()
    }
}

/// What rendering a path yields: its prefix, then its components joined
/// with backslashes.
pub open spec fn render_model(p: PathModel) -> Seq<char> {
    prefix_chars(p.prefix) + join_components(p.parts)
}

/// Whether a character separates path components.
pub fn is_sep_char(c: char) -> (r: bool)
    ensures
        r == is_sep(c),
{
    c == '/' || c == '\\'
}

/// Case-insensitive equality of two characters.
pub fn char_ieq(a: char, b: char) -> (r: bool)
    ensures
        r == (lower(a) == lower(b)),
{
    let au = a as u32;
    let bu = b as u32;
    let al: u32 = if 65 <= au && au <= 90 {
        au + 32
    } else {
        au
    };
    let bl: u32 = if 65 <= bu && bu <= 90 {
        bu + 32
    } else {
        bu
    };
    al == bl
}

/// Case-insensitive equality of two component strings.
pub fn str_ieq(a: &str, b: &str) -> (r: bool)
    ensures
        r == comp_ieq(a@, b@),
{
    let na = a.unicode_len();
    let nb = b.unicode_len();
    if na != nb {
        return false;
    }
    let mut i: usize = 0;
    while i < na
        invariant
            na == a@.len(),
            na == b@.len(),
            i <= na,
            forall|j: int| 0 <= j < i ==> lower(a@[j]) == lower(b@[j]),
        decreases na - i,
    {
        if !char_ieq(a.get_char(i), b.get_char(i)) {
            return false;
        }
        i += 1;
    }
    true
}

impl VfsPath {
    /// A path from a prefix and ready-made components.
    pub fn new(prefix: PathPrefix, components: Vec<String>) -> (r: VfsPath)
        ensures
            r@ == (PathModel { prefix, parts: components.deep_view() }),
    {
        VfsPath { prefix, components }
    }

    /// Number of components.
    pub fn len(&self) -> (n: usize)
        ensures
            n == self@.parts.len(),
    {
        self.components.len()
    }

    /// Equality as paths: same prefix, components equal ignoring ASCII case.
    pub fn equivalent(&self, other: &VfsPath) -> (r: bool)
        ensures
            r == path_ieq(self@, other@),
    {
        if !(self.prefix == other.prefix) {
            return false;
        }
        let n = self.components.len();
        if n != other.components.len() {
            return false;
        }
        let mut i: usize = 0;
        while i < n
            invariant
                n == self@.parts.len(),
                n == other@.parts.len(),
                i <= n,
                forall|j: int| 0 <= j < i ==> comp_ieq(self@.parts[j], other@.parts[j]),
            decreases n - i,
        {
            if !str_ieq(self.components[i].as_str(), other.components[i].as_str()) {
                assert(!comp_ieq(self@.parts[i as int], other@.parts[i as int]));
                return false;
            }
            i += 1;
        }
        true
    }

    /// Whether `self` is an ancestor of `p`, itself included.
    pub fn is_ancestor_of(&self, p: &VfsPath) -> (r: bool)
        ensures
            r == path_is_ancestor(self@, p@),
    {
        if !(self.prefix == p.prefix) {
            return false;
        }
        let n = self.components.len();
        if n > p.components.len() {
            return false;
        }
        let mut i: usize = 0;
        while i < n
            invariant
                n == self@.parts.len(),
                n <= p@.parts.len(),
                i <= n,
                forall|j: int| 0 <= j < i ==> comp_ieq(self@.parts[j], p@.parts[j]),
            decreases n - i,
        {
            if !str_ieq(self.components[i].as_str(), p.components[i].as_str()) {
                assert(!comp_ieq(self@.parts[i as int], p@.parts[i as int]));
                return false;
            }
            i += 1;
        }
        true
    }

    /// Exact (case-sensitive) equality of two paths.
    pub fn identical(&self, other: &VfsPath) -> (r: bool)
        ensures
            r == (self@ == other@),
    {
        if !(self.prefix == other.prefix) {
            return false;
        }
        let n = self.components.len();
        if n != other.components.len() {
            assert(self@.parts.len() != other@.parts.len());
            return false;
        }
        let mut i: usize = 0;
        while i < n
            invariant
                n == self@.parts.len(),
                n == other@.parts.len(),
                i <= n,
                forall|j: int| 0 <= j < i ==> self@.parts[j] == other@.parts[j],
        decreases n - i,
    {
            if !self.components[i].eq(&other.components[i]) {
                assert(self@.parts[i as int] != other@.parts[i as int]);
                return false;
            }
            i += 1;
        }
        assert(self@.parts =~= other@.parts);
        true
    }

    /// The last component, if there is one.
    pub fn file_name(&self) -> (r: Option<&String>)
        ensures
            match r {
                Some(s) => self@.parts.len() > 0 && s@ == self@.parts.last(),
                None => self@.parts.len() == 0,
            },
    {
        if self.components.len() == 0 {
            None
        } else {
            Some(&self.components[self.components.len() - 1])
        }
    }

    /// The path `to / (components of p after the first from_len)`.
    pub fn rebased(p: &VfsPath, from_len: usize, to: &VfsPath) -> (r: VfsPath)
        requires
            from_len <= p@.parts.len(),
        ensures
            r@ == rebase_model(p@, from_len as int, to@),
    {
        let mut components: Vec<String> = Vec::new();
        let tn = to.components.len();
        let mut i: usize = 0;
        while i < tn
            invariant
                tn == to@.parts.len(),
                i <= tn,
                components@.len() == i,
                forall|k: int| #![auto] 0 <= k < i ==> components@[k]@ == to@.parts[k],
            decreases tn - i,
        {
            components.push(to.components[i].clone());
            i += 1;
        }
        let pn = p.components.len();
        let mut j: usize = from_len;
        while j < pn
            invariant
                tn == to@.parts.len(),
                pn == p@.parts.len(),
                from_len <= j <= pn,
                components@.len() == tn + j - from_len,
                forall|k: int| #![auto] 0 <= k < tn ==> components@[k]@ == to@.parts[k],
                forall|k: int| #![auto]
                    tn <= k < components@.len() ==> components@[k]@ == p@.parts[
                        from_len + k - tn
                    ],
            decreases pn - j,
        {
            components.push(p.components[j].clone());
            j += 1;
        }
        assert(components.deep_view() =~~= to@.parts + p@.parts.skip(from_len as int));
        assert(rebase_model(p@, from_len as int, to@) =~~= (PathModel {
            prefix: to@.prefix,
            parts: components.deep_view(),
        }));
        VfsPath { prefix: to.prefix, components }
    }

    /// The same components under another prefix.
    pub fn with_prefix(&self, prefix: PathPrefix) -> (r: VfsPath)
        ensures
            r@ == (PathModel { prefix, parts: self@.parts }),
    {
        VfsPath { prefix, components: self.components.clone() }
    }

    /// The path `self / name`.
    pub fn child(&self, name: &String) -> (r: VfsPath)
        ensures
            r@.prefix == self@.prefix,
            r@.parts == self@.parts.push(name@),
    {
        let mut components = self.components.clone();
        components.push(name.clone());
        assert(components.deep_view() =~~= self@.parts.push(name@));
        VfsPath { prefix: self.prefix, components }
    }

    /// Whether any component is one of the relative forms `.` or `..`.
    /// Callers are expected to hand in canonical paths; a relative
    /// component deserves a warning, though the path is still resolved
    /// as it stands.
    pub fn has_relative_components(&self) -> (r: bool)
        ensures
            r == exists|i: int|
                0 <= i < self@.parts.len() && ((#[trigger] self@.parts[i]) == "."@
                    || self@.parts[i] == ".."@),
    {
        let dot = String::from_str(".");
        let dotdot = String::from_str("..");
        let n = self.components.len();
        let mut i: usize = 0;
        while i < n
            invariant
                n == self@.parts.len(),
                i <= n,
                dot@ == "."@,
                dotdot@ == ".."@,
                forall|j: int|
                    0 <= j < i ==> (#[trigger] self@.parts[j]) != "."@ && self@.parts[j]
                        != ".."@,
            decreases n - i,
        {
            if self.components[i].eq(&dot) || self.components[i].eq(&dotdot) {
                assert(self@.parts[i as int] == "."@ || self@.parts[i as int] == ".."@);
                return true;
            }
            i += 1;
        }
        false
    }

    /// Reads a path from its textual form: the platform prefix is split
    /// off, the rest is cut into components at slashes and backslashes,
    /// with empty pieces dropped.
    pub fn parse(s: &str) -> (r: VfsPath)
        ensures
            r@ == parse_model(s@),
    {
        let n = s.unicode_len();
        let nt = n >= 4 && is_sep_char(s.get_char(0)) && s.get_char(1) == '?' && s.get_char(2)
            == '?' && is_sep_char(s.get_char(3));
        let extended = !nt && n >= 4 && is_sep_char(s.get_char(0)) && is_sep_char(s.get_char(1))
            && s.get_char(2) == '?' && is_sep_char(s.get_char(3));
        if nt {
            VfsPath { prefix: PathPrefix::Nt, components: split_from(s, 4) }
        } else if extended {
            VfsPath { prefix: PathPrefix::Extended, components: split_from(s, 4) }
        } else {
            assert(!has_nt_prefix(s@) && !has_extended_prefix(s@));
            assert(s@.skip(0) =~= s@);
            VfsPath { prefix: PathPrefix::Plain, components: split_from(s, 0) }
        }
    }

    /// Writes the path back as text: its prefix, then its components joined
    /// with backslashes.
    pub fn render(&self) -> (r: String)
        ensures
            r@ == render_model(self@),
    {
        let mut r = match self.prefix {
            PathPrefix::Plain => String::new(),
            PathPrefix::Nt => String::from_str(r"\??\"),
            PathPrefix::Extended => String::from_str(r"\\?\"),
        };
        let n = self.components.len();
        let mut i: usize = 0;
        while i < n
            invariant
                i <= n,
                n == self@.parts.len(),
                r@ == prefix_chars(self@.prefix) + join_components(self@.parts.take(i as int)),
            decreases n - i,
        {
            if i > 0 {
                r.append("\\");
            }
            r.append(self.components[i].as_str());
            proof {
                let t1 = self@.parts.take(i as int + 1);
                assert(t1.drop_last() =~~= self@.parts.take(i as int));
                assert(t1.last() == self@.parts[i as int]);
                if i == 0 {
                    assert(join_components(self@.parts.take(0)) =~= Seq::<char>::empty());
                    assert(join_components(t1) == t1[0]);
                } else {
                    reveal_strlit("\\");
                    assert("\\"@ =~= seq!['\\']);
                }
                assert(r@ =~= prefix_chars(self@.prefix) + join_components(t1));
            }
            i += 1;
        }
        assert(self@.parts.take(n as int) =~~= self@.parts);
        r
    }
}

/// Well-formed components: each nonempty and free of separator characters.
pub open spec fn parts_wf(parts: Seq<Seq<char>>) -> bool {
    &&& forall|i: int| 0 <= i < parts.len() ==> (#[trigger] parts[i]).len() > 0
    &&& forall|i: int, j: int|
        #![auto]
        0 <= i < parts.len() && 0 <= j < parts[i].len() ==> !is_sep(parts[i][j])
}

/// A well-formed path: all its components are.
pub open spec fn path_wf(p: PathModel) -> bool {
    parts_wf(p.parts)
}

/// Splitting looks only at the characters from `i` on.
proof fn lemma_split_acc_skip(s: Seq<char>, i: int, cur: Seq<char>)
    requires
        0 <= i <= s.len(),
    ensures
        split_acc(s, i, cur) == split_acc(s.skip(i), 0, cur),
    decreases s.len() - i,
{
    if i < s.len() {
        assert(s.skip(i)[0] == s[i]);
        assert(s.skip(i).skip(1) =~= s.skip(i + 1));
        if is_sep(s[i]) {
            lemma_split_acc_skip(s, i + 1, Seq::empty());
            lemma_split_acc_skip(s.skip(i), 1, Seq::empty());
        } else {
            lemma_split_acc_skip(s, i + 1, cur.push(s[i]));
            lemma_split_acc_skip(s.skip(i), 1, cur.push(s[i]));
        }
    }
}

/// Splitting consumes a separator-free run into the pending component.
proof fn lemma_split_run(c: Seq<char>, u: Seq<char>, cur: Seq<char>)
    requires
        forall|j: int| 0 <= j < c.len() ==> !is_sep(#[trigger] c[j]),
    ensures
        split_acc(c + u, 0, cur) == split_acc(u, 0, cur + c),
    decreases c.len(),
{
    if c.len() == 0 {
        assert(c + u =~= u);
        assert(cur + c =~= cur);
    } else {
        let s = c + u;
        assert(s[0] == c[0]);
        lemma_split_acc_skip(s, 1, cur.push(c[0]));
        assert(s.skip(1) =~= c.drop_first() + u);
        lemma_split_run(c.drop_first(), u, cur.push(c[0]));
        assert(cur.push(c[0]) + c.drop_first() =~= cur + c);
    }
}

/// Splitting at a separator emits the pending component.
proof fn lemma_split_sep(u: Seq<char>, cur: Seq<char>, c0: char)
    requires
        is_sep(c0),
    ensures
        split_acc(seq![c0] + u, 0, cur) == (if cur.len() == 0 {
            Seq::<Seq<char>>::empty()
        } else {
            seq![cur]
        }) + split_acc(u, 0, Seq::<char>::empty()),
{
    let s = seq![c0] + u;
    assert(s[0] == c0);
    lemma_split_acc_skip(s, 1, Seq::empty());
    assert(s.skip(1) =~= u);
    assert(Seq::<Seq<char>>::empty() + split_acc(u, 0, Seq::<char>::empty()) =~= split_acc(
        u,
        0,
        Seq::<char>::empty(),
    ));
}

/// Joining unfolds at the front as well: the first component, a backslash,
/// then the joined rest.
proof fn lemma_join_front(parts: Seq<Seq<char>>)
    requires
        parts.len() >= 2,
    ensures
        join_components(parts) == parts[0] + seq!['\\'] + join_components(parts.drop_first()),
    decreases parts.len(),
{
    let df = parts.drop_first();
    if parts.len() == 2 {
        assert(parts.drop_last().len() == 1);
        assert(parts.drop_last()[0] == parts[0]);
        assert(join_components(parts) == join_components(parts.drop_last()) + seq!['\\']
            + parts.last());
        assert(join_components(parts.drop_last()) == parts[0]);
        assert(df.len() == 1);
        assert(join_components(df) == df[0]);
        assert(df[0] == parts[1]);
        assert(parts.last() == parts[1]);
    } else {
        let dl = parts.drop_last();
        lemma_join_front(dl);
        assert(join_components(parts) == join_components(dl) + seq!['\\'] + parts.last());
        assert(dl[0] == parts[0]);
        assert(dl.drop_first() =~~= df.drop_last());
        assert(df.len() >= 2);
        assert(join_components(df) == join_components(df.drop_last()) + seq!['\\'] + df.last());
        assert(df.last() == parts.last());
        assert((parts[0] + seq!['\\'] + join_components(df.drop_last())) + seq!['\\']
            + parts.last() =~= parts[0] + seq!['\\'] + (join_components(df.drop_last())
            + seq!['\\'] + df.last()));
    }
}

/// Splitting the join of well-formed components yields them back.
proof fn lemma_split_join(parts: Seq<Seq<char>>)
    requires
        parts_wf(parts),
    ensures
        split_components(join_components(parts)) == parts,
    decreases parts.len(),
{
    if parts.len() == 0 {
        assert(split_components(join_components(parts)) =~~= parts);
    } else if parts.len() == 1 {
        let c = parts[0];
        lemma_split_run(c, Seq::empty(), Seq::empty());
        assert(c + Seq::<char>::empty() =~= c);
        assert(Seq::<char>::empty() + c =~= c);
        assert(split_components(join_components(parts)) =~~= parts);
    } else {
        lemma_join_front(parts);
        let c = parts[0];
        let rest = parts.drop_first();
        assert forall|i: int| 0 <= i < rest.len() implies (#[trigger] rest[i]).len() > 0 by {
            assert(rest[i] == parts[i + 1]);
        }
        assert forall|i: int, j: int|
            #![auto]
            0 <= i < rest.len() && 0 <= j < rest[i].len() implies !is_sep(rest[i][j]) by {
            assert(rest[i] == parts[i + 1]);
        }
        let tail = seq!['\\'] + join_components(rest);
        assert(join_components(parts) =~= c + tail);
        lemma_split_run(c, tail, Seq::empty());
        assert(Seq::<char>::empty() + c =~= c);
        lemma_split_sep(join_components(rest), c, '\\');
        lemma_split_join(rest);
        assert(seq![c] + rest =~~= parts);
    }
}

/// The join of well-formed components opens with the first character of the
/// first component.
proof fn lemma_join_first_char(parts: Seq<Seq<char>>)
    requires
        parts_wf(parts),
        parts.len() > 0,
    ensures
        join_components(parts).len() > 0,
        join_components(parts)[0] == parts[0][0],
{
    if parts.len() >= 2 {
        lemma_join_front(parts);
        assert((parts[0] + seq!['\\'] + join_components(parts.drop_first()))[0] == parts[0][0]);
    }
}

/// Law: rendering a well-formed path and parsing the text back yields the
/// path: the prefix notation and the component joining lose nothing.
pub proof fn lemma_render_parse_round_trip(p: PathModel)
    requires
        path_wf(p),
    ensures
        parse_model(render_model(p)) == p,
{
    let j = join_components(p.parts);
    lemma_split_join(p.parts);
    let s = render_model(p);
    match p.prefix {
        PathPrefix::Plain => {
            assert(s =~= j);
            if p.parts.len() > 0 {
                lemma_join_first_char(p.parts);
                assert(!is_sep(s[0]));
            }
            assert(!has_nt_prefix(s) && !has_extended_prefix(s));
            assert(parse_model(s) =~~= p);
        },
        PathPrefix::Nt => {
            reveal_strlit(r"\??\");
            assert(prefix_chars(p.prefix).len() == 4);
            assert(s[0] == '\\' && s[1] == '?' && s[2] == '?' && s[3] == '\\');
            assert(has_nt_prefix(s));
            assert(s.skip(4) =~= j);
            assert(parse_model(s) =~~= p);
        },
        PathPrefix::Extended => {
            reveal_strlit(r"\\?\");
            assert(prefix_chars(p.prefix).len() == 4);
            assert(s[0] == '\\' && s[1] == '\\' && s[2] == '?' && s[3] == '\\');
            assert(!has_nt_prefix(s));
            assert(has_extended_prefix(s));
            assert(s.skip(4) =~= j);
            assert(parse_model(s) =~~= p);
        },
    }
}

/// The components of `s` from position `start` on.
fn split_from(s: &str, start: usize) -> (r: Vec<String>)
    requires
        start <= s@.len(),
    ensures
        r.deep_view() == split_components(s@.skip(start as int)),
{
    let ghost tail = s@.skip(start as int);
    let n = s.unicode_len();
    let mut parts: Vec<String> = Vec::new();
    let mut i: usize = start;
    let mut run_start: usize = start;
    let mut in_run: bool = false;
    while i < n
        invariant
            start <= i <= n,
            n == s@.len(),
            tail == s@.skip(start as int),
            in_run ==> start <= run_start < i,
            ({
                let cur = if in_run {
                    tail.subrange(run_start - start, i - start)
                } else {
                    Seq::<char>::empty()
                };
                split_components(tail) == parts.deep_view() + split_acc(tail, i - start, cur)
            }),
        decreases n - i,
    {
        let ghost j = i - start;
        let ghost cur = if in_run {
            tail.subrange(run_start - start, i - start)
        } else {
            Seq::<char>::empty()
        };
        let c = s.get_char(i);
        proof {
            assert(tail[j] == s@[i as int]);
        }
        if is_sep_char(c) {
            if in_run {
                let comp = s.substring_char(run_start, i).to_owned();
                proof {
                    assert(comp@ =~= cur);
                }
                let ghost pdv = parts.deep_view();
                parts.push(comp);
                proof {
                    assert(parts.deep_view() =~~= pdv.push(cur));
                    assert(pdv.push(cur) + split_acc(tail, j + 1, Seq::<char>::empty()) =~~= pdv + (
                    seq![cur] + split_acc(tail, j + 1, Seq::<char>::empty())));
                }
                in_run = false;
            }
        } else {
            if !in_run {
                run_start = i;
                in_run = true;
                proof {
                    assert(tail.subrange(j, j + 1) =~= Seq::<char>::empty().push(tail[j]));
                }
            } else {
                proof {
                    assert(tail.subrange(run_start - start, j + 1) =~= cur.push(tail[j]));
                }
            }
        }
        i += 1;
    }
    let ghost cur = if in_run {
        tail.subrange(run_start - start, n - start)
    } else {
        Seq::<char>::empty()
    };
    if in_run {
        let comp = s.substring_char(run_start, n).to_owned();
        proof {
            assert(comp@ =~= cur);
        }
        let ghost pdv = parts.deep_view();
        parts.push(comp);
        proof {
            assert(parts.deep_view() =~~= pdv.push(cur));
            assert(pdv.push(cur) =~~= pdv + seq![cur]);
        }
    }
    parts
}

} // verus!

