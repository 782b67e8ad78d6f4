//! Module names and the "module name ↔ file path" rule behind `import Foo.Bar`.
//!
//! A module name is the path below the module root, without the
//! `.sokonanoda` extension, with `/` replaced by `.`. Each component is an
//! identifier (same character set as the lexer, minus `.`), so a `-` in a
//! file name can never be imported, and components are never empty nor start
//! with a digit.
use crate::text::{
    char_string, chars_of, concat3, concat5, str_eq, string_from_chars, unicode_alphabetic,
    unicode_numeric,
};
use crate::token::{is_ident_continue, is_ident_start, spec_ident_continue, spec_ident_start};
use std::path::PathBuf;
use vstd::prelude::*;

verus! {

/// The module source file extension (without the dot).
pub const MODULE_EXTENSION: &'static str = "sokonanoda";

/// The teaching hint for `-`, shared with the lexer's `import` line rule.
pub const DASH_HINT: &'static str = crate::token::DASH_HINT;

#[verifier::external_type_specification]
#[verifier::external_body]
pub struct ExPathBuf(PathBuf);

/// `<PathBuf as Clone>::clone`: a copy of the path (nothing is claimed of it).
pub assume_specification[ <PathBuf as Clone>::clone ](p: &PathBuf) -> PathBuf;

/// A checked module name: at least one component, each a non-empty
/// identifier without `.`.
#[derive(Debug, PartialEq, Eq, Hash)]
pub struct ModuleName {
    components: Vec<String>,
}

/// Why a text is not a module name.
#[derive(Debug, Clone, PartialEq, Eq)]
pub enum ModuleNameError {
    /// Nothing after `import`.
    Empty,
    /// An empty component: `Foo.`, `Foo..Bar`, `.Foo`.
    EmptyComponent,
    /// A component that does not start like an identifier (typically a digit).
    BadStart { component: String, ch: char },
    /// A component with a character an identifier cannot hold (typically `-`).
    BadChar { component: String, ch: char },
}

/// A component character: an identifier character other than `.`.
pub open spec fn spec_component_continue(c: char) -> bool {
    c != '.' && spec_ident_continue(c)
}

fn is_component_continue(c: char) -> (r: bool)
    ensures
        r == spec_component_continue(c),
{
    c != '.' && is_ident_continue(c)
}

/// The `.`-separated parts of a text (`"a..b"` has three parts, `""` one).
pub open spec fn split_dot(s: Seq<char>) -> Seq<Seq<char>>
    decreases s.len(),
{
    if s.len() == 0 {
        seq![Seq::<char>::empty()]
    } else {
        let r = split_dot(s.drop_last());
        if s.last() == '.' {
            r.push(Seq::<char>::empty())
        } else {
            r.update(r.len() - 1, r.last().push(s.last()))
        }
    }
}

/// No part of a text split at its dots holds a dot.
pub proof fn lemma_split_dot_no_dot(s: Seq<char>)
    ensures
        forall|k: int| 0 <= k < split_dot(s).len() ==> !(#[trigger] split_dot(s)[k]).contains('.'),
    decreases s.len(),
{
    if s.len() > 0 {
        lemma_split_dot_no_dot(s.drop_last());
        let r = split_dot(s.drop_last());
        lemma_split_dot_nonempty(s.drop_last());
        if s.last() != '.' {
            assert forall|k: int| 0 <= k < split_dot(s).len() implies !(#[trigger] split_dot(s)[k]).contains('.') by {
                if k == r.len() - 1 {
                    let p = r.last().push(s.last());
                    assert(split_dot(s)[k] == p);
                    if p.contains('.') {
                        let j = choose|j: int| 0 <= j < p.len() && p[j] == '.';
                        if j < r.last().len() {
                            assert(r.last()[j] == '.');
                            assert(r.last().contains('.'));
                        }
                    }
                }
            };
        } else {
            assert forall|k: int| 0 <= k < split_dot(s).len() implies !(#[trigger] split_dot(s)[k]).contains('.') by {
                if k < r.len() {
                    assert(split_dot(s)[k] == r[k]);
                }
            };
        }
    }
}

/// What checking a text as a module name finds, in the words of the rules.
pub ghost enum NameOutcome {
    Valid(Seq<Seq<char>>),
    Empty,
    EmptyComponent,
    BadStart(Seq<char>, char),
    BadChar(Seq<char>, char),
}

/// The first character of a non-empty component, from index `j` on, that
/// cannot continue a component.
pub open spec fn first_bad_char_from(p: Seq<char>, j: int) -> Option<char>
    decreases p.len() - j,
{
    if j >= p.len() || j < 0 {
        None
    } else if !spec_component_continue(p[j]) {
        Some(p[j])
    } else {
        first_bad_char_from(p, j + 1)
    }
}

/// The rule a single component breaks, if any.
pub open spec fn part_outcome(p: Seq<char>) -> Option<NameOutcome> {
    if p.len() == 0 {
        Some(NameOutcome::EmptyComponent)
    } else if !spec_ident_start(p[0]) {
        Some(NameOutcome::BadStart(p, p[0]))
    } else {
        match first_bad_char_from(p, 1) {
            Some(c) => Some(NameOutcome::BadChar(p, c)),
            None => None,
        }
    }
}

/// The first rule broken by the parts from index `k` on, if any.
pub open spec fn parts_outcome_from(parts: Seq<Seq<char>>, k: int) -> Option<NameOutcome>
    decreases parts.len() - k,
{
    if k >= parts.len() || k < 0 {
        None
    } else {
        match part_outcome(parts[k]) {
            Some(o) => Some(o),
            None => parts_outcome_from(parts, k + 1),
        }
    }
}

/// What `ModuleName::parse` decides for a text.
pub open spec fn spec_module_name(s: Seq<char>) -> NameOutcome {
    if s.len() == 0 {
        NameOutcome::Empty
    } else {
        match parts_outcome_from(split_dot(s), 0) {
            Some(o) => o,
            None => NameOutcome::Valid(split_dot(s)),
        }
    }
}

/// The views of a vector of strings.
pub open spec fn views(v: Seq<String>) -> Seq<Seq<char>> {
    v.map_values(|s: String| s@)
}

/// Whether a parse result is the one the rules decide.
pub open spec fn agrees(r: Result<ModuleName, ModuleNameError>, o: NameOutcome) -> bool {
    match (r, o) {
        (Ok(m), NameOutcome::Valid(parts)) => m.spec_components() == parts,
        (Err(ModuleNameError::Empty), NameOutcome::Empty) => true,
        (Err(ModuleNameError::EmptyComponent), NameOutcome::EmptyComponent) => true,
        (Err(ModuleNameError::BadStart { component, ch }), NameOutcome::BadStart(p, c)) => {
            component@ == p && ch == c
        },
        (Err(ModuleNameError::BadChar { component, ch }), NameOutcome::BadChar(p, c)) => {
            component@ == p && ch == c
        },
        _ => false,
    }
}

/// A component that breaks no rule.
pub open spec fn valid_component(p: Seq<char>) -> bool {
    part_outcome(p) is None
}

impl ModuleNameError {
    /// The user-facing text of the error.
    pub fn message(&self) -> (r: String)
        ensures
            self is Empty ==> r@ == "`import` 后面要写模块名"@,
            self is EmptyComponent ==> r@ == "模块名里有空的分量（`.` 不能开头、结尾或连续出现）"@,
            self matches ModuleNameError::BadStart { component, ch } ==> r@ == "模块名分量 `"@ + component@
                + "` 不能以 `"@ + seq![*ch] + "` 开头"@,
            self matches ModuleNameError::BadChar { component, ch } ==> r@ == "模块名分量 `"@ + component@
                + "` 里有非法字符 `"@ + seq![*ch] + "`"@,
    {
        match self {
            ModuleNameError::Empty => String::from_str("`import` 后面要写模块名"),
            ModuleNameError::EmptyComponent => {
                String::from_str("模块名里有空的分量（`.` 不能开头、结尾或连续出现）")
            },
            ModuleNameError::BadStart { component, ch } => {
                let c = char_string(*ch);
                concat5("模块名分量 `", component.as_str(), "` 不能以 `", c.as_str(), "` 开头")
            },
            ModuleNameError::BadChar { component, ch } => {
                let c = char_string(*ch);
                concat5("模块名分量 `", component.as_str(), "` 里有非法字符 `", c.as_str(), "`")
            },
        }
    }

    /// The teaching hint of the error; a `-` gets the dash hint.
    pub fn hint(&self) -> (r: &'static str)
        ensures
            (self is Empty || self is EmptyComponent) ==> r@
                == "模块名是**点分**的标识符，例如 `import Lesson.Logic` 对应 `Lesson/Logic.sokonanoda`。"@,
            self is BadStart ==> r@ == "模块名的每一段都必须像标识符一样开头（字母或 `_`），不能以数字开头。"@,
            (self matches ModuleNameError::BadChar { ch, .. } && ch == '-') ==> r == DASH_HINT,
            (self matches ModuleNameError::BadChar { ch, .. } && ch != '-') ==> r@
                == "模块名的每一段只能是字母、数字、`_`、`'`、`!`、`?`，用 `.` 分隔——与官方 Lean 的标识符规则一致。"@,
    {
        match self {
            ModuleNameError::Empty | ModuleNameError::EmptyComponent => {
                "模块名是**点分**的标识符，例如 `import Lesson.Logic` 对应 `Lesson/Logic.sokonanoda`。"
            },
            ModuleNameError::BadStart { .. } => {
                "模块名的每一段都必须像标识符一样开头（字母或 `_`），不能以数字开头。"
            },
            ModuleNameError::BadChar { ch, .. } => {
                if *ch == '-' {
                    DASH_HINT
                } else {
                    "模块名的每一段只能是字母、数字、`_`、`'`、`!`、`?`，用 `.` 分隔——与官方 Lean 的标识符规则一致。"
                }
            },
        }
    }
}

/// The `.`-separated parts of `v`.
fn split_parts(v: &Vec<char>) -> (r: Vec<Vec<char>>)
    ensures
        r@.map_values(|p: Vec<char>| p@) == split_dot(v@),
{
    let mut parts: Vec<Vec<char>> = Vec::new();
    let mut cur: Vec<char> = Vec::new();
    let mut i: usize = 0;
    while i < v.len()
        invariant
            i <= v@.len(),
            parts@.map_values(|p: Vec<char>| p@).push(cur@) == split_dot(v@.take(i as int)),
        decreases v.len() - i,
    {
        let ghost before = parts@.map_values(|p: Vec<char>| p@).push(cur@);
        assert(v@.take(i + 1).drop_last() =~= v@.take(i as int));
        if v[i] == '.' {
            let done = cur;
            parts.push(done);
            cur = Vec::new();
            assert(parts@.map_values(|p: Vec<char>| p@).push(cur@) =~= before.push(
                Seq::<char>::empty(),
            ));
        } else {
            cur.push(v[i]);
            assert(parts@.map_values(|p: Vec<char>| p@).push(cur@) =~= before.update(
                before.len() - 1,
                before.last().push(v@[i as int]),
            ));
        }
        i = i + 1;
    }
    parts.push(cur);
    assert(v@.take(v.len() as int) =~= v@);
    parts
}

/// The rule a component breaks, checked directly.
fn check_part(p: &Vec<char>) -> (r: Option<ModuleNameError>)
    ensures
        match (r, part_outcome(p@)) {
            (None, None) => true,
            (Some(ModuleNameError::EmptyComponent), Some(NameOutcome::EmptyComponent)) => true,
            (Some(ModuleNameError::BadStart { component, ch }), Some(NameOutcome::BadStart(q, c))) => {
                component@ == q && ch == c
            },
            (Some(ModuleNameError::BadChar { component, ch }), Some(NameOutcome::BadChar(q, c))) => {
                component@ == q && ch == c
            },
            _ => false,
        },
{
    if p.len() == 0 {
        return Some(ModuleNameError::EmptyComponent);
    }
    if !is_ident_start(p[0]) {
        return Some(ModuleNameError::BadStart { component: string_from_chars(p.as_slice()), ch: p[0] });
    }
    let mut j: usize = 1;
    while j < p.len()
        invariant
            1 <= j <= p@.len(),
            spec_ident_start(p@[0]),
            first_bad_char_from(p@, 1) == first_bad_char_from(p@, j as int),
        decreases p.len() - j,
    {
        if !is_component_continue(p[j]) {
            assert(first_bad_char_from(p@, j as int) == Some(p@[j as int]));
            return Some(ModuleNameError::BadChar { component: string_from_chars(p.as_slice()), ch: p[j] });
        }
        j = j + 1;
    }
    assert(first_bad_char_from(p@, j as int) is None);
    None
}

impl ModuleName {
    #[verifier::type_invariant]
    spec fn inv(&self) -> bool {
        &&& self.components@.len() > 0
        &&& forall|k: int| 0 <= k < self.components@.len() ==> valid_component(#[trigger] self.components@[k]@)
        &&& forall|k: int| 0 <= k < self.components@.len() ==> !(#[trigger] self.components@[k]@).contains('.')
    }

    /// The components, as written.
    pub closed spec fn spec_components(&self) -> Seq<Seq<char>> {
        views(self.components@)
    }

    /// Check and split a dotted module name.
    pub fn parse(raw: &str) -> (r: Result<Self, ModuleNameError>)
        ensures
            agrees(r, spec_module_name(raw@)),
    {
        let v = chars_of(raw);
        if v.len() == 0 {
            return Err(ModuleNameError::Empty);
        }
        let parts = split_parts(&v);
        let ghost sp = split_dot(v@);
        let mut components: Vec<String> = Vec::new();
        let mut k: usize = 0;
        while k < parts.len()
            invariant
                v@ == raw@,
                v@.len() > 0,
                sp == split_dot(v@),
                k <= parts@.len(),
                parts@.map_values(|p: Vec<char>| p@) == sp,
                parts_outcome_from(sp, 0) == parts_outcome_from(sp, k as int),
                views(components@) == sp.take(k as int),
                forall|m: int| 0 <= m < k ==> valid_component(#[trigger] sp[m]),
            decreases parts.len() - k,
        {
            assert(sp[k as int] == parts@[k as int]@);
            match check_part(&parts[k]) {
                Some(e) => {
                    assert(parts_outcome_from(sp, k as int) == part_outcome(sp[k as int]));
                    return Err(e);
                },
                None => {},
            }
            let ghost old_views = views(components@);
            let piece = string_from_chars(parts[k].as_slice());
            assert(piece@ == sp[k as int]);
            components.push(piece);
            assert(views(components@) =~= old_views.push(piece@));
            assert(sp.take(k + 1) =~= sp.take(k as int).push(sp[k as int]));
            k = k + 1;
            assert(views(components@) =~= sp.take(k as int));
        }
        assert(sp.take(k as int) =~= sp);
        assert(sp.len() > 0) by {
            lemma_split_dot_nonempty(v@);
        }
        assert forall|m: int| 0 <= m < components@.len() implies valid_component(
            #[trigger] components@[m]@,
        ) by {
            assert(components@[m]@ == views(components@)[m]);
        };
        assert forall|m: int| 0 <= m < components@.len() implies !(#[trigger] components@[m]@).contains('.') by {
            assert(components@[m]@ == views(components@)[m]);
            lemma_split_dot_no_dot(v@);
        };
        Ok(ModuleName { components })
    }

    /// The canonical text: the components joined by `.`.
    pub fn as_str(&self) -> (r: String)
        ensures
            r@ == join_dot(self.spec_components()),
    {
        proof {
            use_type_invariant(self);
        }
        let mut out = String::new();
        let mut k: usize = 0;
        while k < self.components.len()
            invariant
                k <= self.components@.len(),
                self.components@.len() > 0,
                k > 0 ==> out@ == join_dot(views(self.components@).take(k as int)),
                k == 0 ==> out@.len() == 0,
            decreases self.components.len() - k,
        {
            let ghost parts = views(self.components@);
            proof {
                assert(parts.take(k + 1).drop_last() =~= parts.take(k as int));
                assert(parts.take(k + 1).last() == self.components@[k as int]@);
            }
            if k > 0 {
                out.append(".");
                proof {
                    reveal_strlit(".");
                }
            }
            out.append(self.components[k].as_str());
            proof {
                if k > 0 {
                    assert(join_dot(parts.take(k + 1)) == join_dot(parts.take(k as int)) + seq!['.']
                        + parts[k as int]);
                } else {
                    assert(join_dot(parts.take(1)) == parts[0]);
                }
            }
            k = k + 1;
        }
        proof {
            assert(views(self.components@).take(k as int) =~= views(self.components@));
        }
        out
    }

    /// The components.
    pub fn components(&self) -> (r: &[String])
        ensures
            views(r@) == self.spec_components(),
            r@.len() > 0,
            forall|k: int|
                0 <= k < r@.len() ==> (#[trigger] r@[k])@.len() > 0 && !r@[k]@.contains('.') && valid_component(
                    r@[k]@,
                ),
    {
        proof {
            use_type_invariant(self);
        }
        self.components.as_slice()
    }

    /// The last component (`Bar` in `Foo.Bar`).
    pub fn last_component(&self) -> (r: &str)
        ensures
            r@ == self.spec_components().last(),
    {
        proof {
            use_type_invariant(self);
        }
        let n = self.components.len();
        self.components[n - 1].as_str()
    }

    /// The path below the module root, as text: the components joined by
    /// `/`, then `.` and the module extension (`Foo.Bar` ↦
    /// `Foo/Bar.sokonanoda`).
    pub fn relative_path(&self) -> (r: String)
        ensures
            r@ == join_slash(self.spec_components()) + "."@ + MODULE_EXTENSION@,
    {
        let ghost parts = views(self.components@);
        let mut out = String::new();
        let mut k: usize = 0;
        while k < self.components.len()
            invariant
                parts == views(self.components@),
                k <= self.components@.len(),
                out@ == join_slash(parts.take(k as int)),
            decreases self.components.len() - k,
        {
            proof {
                assert(parts.take(k + 1).drop_last() =~= parts.take(k as int));
                assert(parts.take(k + 1).last() == self.components@[k as int]@);
            }
            if k > 0 {
                out.append("/");
                proof {
                    reveal_strlit("/");
                }
            }
            out.append(self.components[k].as_str());
            proof {
                if k > 0 {
                    assert(join_slash(parts.take(k + 1)) == join_slash(parts.take(k as int)) + seq!['/']
                        + parts[k as int]);
                } else {
                    assert(join_slash(parts.take(1)) == parts[0]);
                    assert(out@ =~= parts[0]);
                }
            }
            k = k + 1;
        }
        proof {
            assert(parts.take(k as int) =~= parts);
        }
        out.append(".");
        out.append(MODULE_EXTENSION);
        out
    }

    /// A portability note (not an error): a component that is a reserved
    /// device name on some systems (`CON`, `PRN`, `AUX`, `NUL`, `COM1`–`COM9`,
    /// `LPT1`–`LPT9`, any case) or holds one of `< > " | ? * !`.
    pub fn portability_note(&self) -> (r: Option<String>)
        ensures
            r is None <==> forall|k: int|
                0 <= k < self.spec_components().len() ==> !reserved_device(
                    upper(#[trigger] self.spec_components()[k]),
                ) && !has_forbidden_char(self.spec_components()[k]),
            r matches Some(t) ==> portability_text(self.spec_components(), 0) == Some(t@),
            r is None ==> portability_text(self.spec_components(), 0) is None,
    {
        let mut k: usize = 0;
        while k < self.components.len()
            invariant
                k <= self.components@.len(),
                portability_text(self.spec_components(), k as int) == portability_text(self.spec_components(), 0),
                forall|m: int|
                    0 <= m < k ==> !reserved_device(upper(#[trigger] self.spec_components()[m]))
                        && !has_forbidden_char(self.spec_components()[m]),
            decreases self.components.len() - k,
        {
            let c = chars_of(self.components[k].as_str());
            assert(c@ == self.spec_components()[k as int]);
            let up = to_ascii_upper(&c);
            if is_reserved_device(&up) {
                return Some(
                    concat3(
                        "模块名分量 `",
                        self.components[k].as_str(),
                        "` 在部分操作系统上是保留设备名，换一个名字更安全。",
                    ),
                );
            }
            match find_forbidden(&c) {
                Some(ch) => {
                    let cs = char_string(ch);
                    return Some(
                        concat5(
                            "模块名分量 `",
                            self.components[k].as_str(),
                            "` 里的 `",
                            cs.as_str(),
                            "` 在部分操作系统上不能出现在文件名里。",
                        ),
                    );
                },
                None => {},
            }
            k = k + 1;
        }
        None
    }
}

/// The parts joined by `/`.
pub open spec fn join_slash(parts: Seq<Seq<char>>) -> Seq<char>
    decreases parts.len(),
{
    if parts.len() == 0 {
        Seq::empty()
    } else if parts.len() == 1 {
        parts[0]
    } else {
        join_slash(parts.drop_last()) + seq!['/'] + parts.last()
    }
}

/// The parts joined by `.` (the inverse of [`split_dot`]).
pub open spec fn join_dot(parts: Seq<Seq<char>>) -> Seq<char>
    decreases parts.len(),
{
    if parts.len() == 0 {
        Seq::empty()
    } else if parts.len() == 1 {
        parts[0]
    } else {
        join_dot(parts.drop_last()) + seq!['.'] + parts.last()
    }
}

proof fn lemma_join_extend_last(r: Seq<Seq<char>>, c: char)
    requires
        r.len() > 0,
    ensures
        join_dot(r.update(r.len() - 1, r.last().push(c))) == join_dot(r).push(c),
{
    let u = r.update(r.len() - 1, r.last().push(c));
    if r.len() > 1 {
        assert(u.drop_last() =~= r.drop_last());
        assert(join_dot(u) == join_dot(u.drop_last()) + seq!['.'] + u.last());
        assert(join_dot(u) =~= join_dot(r).push(c));
    } else {
        assert(join_dot(u) == u[0]);
    }
}

/// Joining the parts of a text gives the text back.
pub proof fn lemma_join_split(s: Seq<char>)
    ensures
        join_dot(split_dot(s)) == s,
    decreases s.len(),
{
    if s.len() == 0 {
        assert(split_dot(s) == seq![Seq::<char>::empty()]);
        assert(join_dot(split_dot(s)) == Seq::<char>::empty());
        assert(s =~= Seq::<char>::empty());
    } else {
        let t = s.drop_last();
        lemma_join_split(t);
        lemma_split_dot_nonempty(t);
        let r = split_dot(t);
        if s.last() == '.' {
            let p = r.push(Seq::<char>::empty());
            assert(p.drop_last() =~= r);
            assert(join_dot(p) == join_dot(r) + seq!['.'] + Seq::<char>::empty());
            assert(join_dot(p) =~= s);
        } else {
            lemma_join_extend_last(r, s.last());
            assert(t.push(s.last()) =~= s);
        }
    }
}

proof fn lemma_outcome_not_valid(parts: Seq<Seq<char>>, k: int)
    ensures
        !(parts_outcome_from(parts, k) matches Some(NameOutcome::Valid(_))),
    decreases parts.len() - k,
{
    if 0 <= k < parts.len() {
        lemma_outcome_not_valid(parts, k + 1);
    }
}

/// A module name reads back as the text it was parsed from.
pub proof fn lemma_parse_round_trips(raw: Seq<char>)
    ensures
        spec_module_name(raw) matches NameOutcome::Valid(parts) ==> join_dot(parts) == raw,
{
    lemma_join_split(raw);
    lemma_outcome_not_valid(split_dot(raw), 0);
    if raw.len() > 0 {
        match parts_outcome_from(split_dot(raw), 0) {
            Some(o) => {},
            None => {
                assert(spec_module_name(raw) == NameOutcome::Valid(split_dot(raw)));
            },
        }
    }
}

proof fn lemma_split_dot_nonempty(s: Seq<char>)
    ensures
        split_dot(s).len() > 0,
    decreases s.len(),
{
    if s.len() > 0 {
        lemma_split_dot_nonempty(s.drop_last());
    }
}

pub open spec fn spec_upper_char(c: char) -> char {
    if 'a' <= c && c <= 'z' {
        ((c as u32) - 32) as char
    } else {
        c
    }
}

/// ASCII upper-casing, as `str::to_ascii_uppercase`.
pub open spec fn upper(s: Seq<char>) -> Seq<char> {
    s.map_values(|c: char| spec_upper_char(c))
}

pub open spec fn reserved_device(u: Seq<char>) -> bool {
    u == "CON"@ || u == "PRN"@ || u == "AUX"@ || u == "NUL"@ || (u.len() == 4 && (u.take(3)
        == "COM"@ || u.take(3) == "LPT"@) && '1' <= u[3] && u[3] <= '9')
}

pub open spec fn forbidden_char(c: char) -> bool {
    c == '<' || c == '>' || c == '"' || c == '|' || c == '?' || c == '*' || c == '!'
}

/// The index of the first forbidden character from `j` on (the length when
/// there is none).
pub open spec fn first_forbidden_from(s: Seq<char>, j: int) -> int
    decreases s.len() - j,
{
    if j < 0 || j >= s.len() {
        s.len() as int
    } else if forbidden_char(s[j]) {
        j
    } else {
        first_forbidden_from(s, j + 1)
    }
}

/// The note for the components from `k` on: the first component that is a
/// reserved device name, or else holds a forbidden character (the first one
/// is named).
pub open spec fn portability_text(comps: Seq<Seq<char>>, k: int) -> Option<Seq<char>>
    decreases comps.len() - k,
{
    if k < 0 || k >= comps.len() {
        None
    } else if reserved_device(upper(comps[k])) {
        Some("模块名分量 `"@ + comps[k] + "` 在部分操作系统上是保留设备名，换一个名字更安全。"@)
    } else if has_forbidden_char(comps[k]) {
        Some(
            "模块名分量 `"@ + comps[k] + "` 里的 `"@ + seq![comps[k][first_forbidden_from(comps[k], 0)]]
                + "` 在部分操作系统上不能出现在文件名里。"@,
        )
    } else {
        portability_text(comps, k + 1)
    }
}

pub open spec fn has_forbidden_char(s: Seq<char>) -> bool {
    exists|j: int| 0 <= j < s.len() && forbidden_char(#[trigger] s[j])
}

fn to_ascii_upper(v: &Vec<char>) -> (r: Vec<char>)
    ensures
        r@ == upper(v@),
{
    let mut out: Vec<char> = Vec::new();
    let mut i: usize = 0;
    while i < v.len()
        invariant
            i <= v@.len(),
            out@ =~= upper(v@.take(i as int)),
        decreases v.len() - i,
    {
        let c = v[i];
        let d = if 'a' <= c && c <= 'z' {
            ((c as u32) - 32) as u8 as char
        } else {
            c
        };
        assert(d == spec_upper_char(c)) by {
            if 'a' <= c && c <= 'z' {
                assert(((c as u32) - 32) < 256);
            }
        };
        out.push(d);
        i = i + 1;
        assert(upper(v@.take(i as int)) =~= upper(v@.take(i - 1)).push(d));
    }
    assert(v@.take(v.len() as int) =~= v@);
    out
}

fn chars_eq(v: &Vec<char>, s: &str) -> (r: bool)
    ensures
        r == (v@ == s@),
{
    let t = chars_of(s);
    if t.len() != v.len() {
        return false;
    }
    let mut i: usize = 0;
    while i < v.len()
        invariant
            t@ == s@,
            t@.len() == v@.len(),
            i <= v@.len(),
            forall|j: int| 0 <= j < i ==> v@[j] == t@[j],
        decreases v.len() - i,
    {
        if v[i] != t[i] {
            return false;
        }
        i = i + 1;
    }
    assert(v@ =~= t@);
    true
}

fn is_reserved_device(u: &Vec<char>) -> (r: bool)
    ensures
        r == reserved_device(u@),
{
    if chars_eq(u, "CON") || chars_eq(u, "PRN") || chars_eq(u, "AUX") || chars_eq(u, "NUL") {
        return true;
    }
    if u.len() == 4 {
        let head: Vec<char> = vec![u[0], u[1], u[2]];
        assert(head@ =~= u@.take(3));
        (chars_eq(&head, "COM") || chars_eq(&head, "LPT")) && '1' <= u[3] && u[3] <= '9'
    } else {
        false
    }
}

fn find_forbidden(v: &Vec<char>) -> (r: Option<char>)
    ensures
        r is None <==> !has_forbidden_char(v@),
        r matches Some(ch) ==> ch == v@[first_forbidden_from(v@, 0)],
{
    let mut i: usize = 0;
    while i < v.len()
        invariant
            i <= v@.len(),
            forall|j: int| 0 <= j < i ==> !forbidden_char(#[trigger] v@[j]),
            first_forbidden_from(v@, i as int) == first_forbidden_from(v@, 0),
        decreases v.len() - i,
    {
        let c = v[i];
        if c == '<' || c == '>' || c == '"' || c == '|' || c == '?' || c == '*' || c == '!' {
            assert(forbidden_char(v@[i as int]));
            return Some(c);
        }
        i = i + 1;
    }
    None
}


impl Clone for ModuleName {
    fn clone(&self) -> (r: Self)
        ensures
            r.spec_components() == self.spec_components(),
    {
        proof {
            use_type_invariant(self);
        }
        let mut components: Vec<String> = Vec::new();
        let mut i: usize = 0;
        while i < self.components.len()
            invariant
                i <= self.components@.len(),
                components@ == self.components@.take(i as int),
            decreases self.components.len() - i,
        {
            components.push(self.components[i].clone());
            proof {
                assert(self.components@.take(i as int + 1) =~= self.components@.take(i as int).push(self.components@[i as int]));
            }
            i = i + 1;
        }
        proof {
            assert(self.components@.take(self.components@.len() as int) =~= self.components@);
        }
        ModuleName { components }
    }
}

} // verus!
