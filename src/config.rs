use vstd::prelude::*;
use vstd::std_specs::iter::IteratorSpec;
use vstd::utf8::encode_utf8;

use crate::args::ListOpts;
use crate::bytes::push_str_bytes;
use crate::error::BoilError;
use crate::text::str_is;

verus! {

/// The language of a program.
#[derive(Default, Debug, Clone, Copy, PartialEq, Eq, Structural)]
pub enum ProgType {
    Python,
    Rust,
    JavaScript,
    #[default]
    Bash,
}

/// One registry entry: a tracked script or project.
#[derive(Debug, Clone, Default)]
pub struct Program {
    pub name: String,
    pub project: bool,
    /// The program's location, as UTF-8 text.
    pub path: String,
    pub prog_type: ProgType,
    pub description: Option<String>,
    pub tags: Option<Vec<String>>,
}

/// The label of a program type, as its variant is named.
pub open spec fn type_label(t: ProgType) -> Seq<char> {
    match t {
        ProgType::Python => "Python"@,
        ProgType::Rust => "Rust"@,
        ProgType::JavaScript => "JavaScript"@,
        ProgType::Bash => "Bash"@,
    }
}

/// The bytes of each tag, one after another, with no separator.
pub open spec fn joined_bytes(tags: Seq<String>) -> Seq<u8>
    decreases tags.len(),
{
    if tags.len() == 0 {
        Seq::empty()
    } else {
        joined_bytes(tags.drop_last()) + encode_utf8(tags.last()@)
    }
}

/// The byte encoding of one field of a program, used alike to filter and to sort.
/// An absent description or tag list is empty. The tags are joined with no separator,
/// so a run of bytes can span two tags: the tags `ab` and `cd` contain `bc`.
pub open spec fn field_bytes(p: Program, f: ListOpts) -> Seq<u8> {
    match f {
        ListOpts::Name => encode_utf8(p.name@),
        ListOpts::Path => encode_utf8(p.path@),
        ListOpts::Project => seq![if p.project { 1u8 } else { 0u8 }],
        ListOpts::Type => encode_utf8(type_label(p.prog_type)),
        ListOpts::Description => match p.description {
            Some(d) => encode_utf8(d@),
            None => Seq::empty(),
        },
        ListOpts::Tags => match p.tags {
            Some(t) => joined_bytes(t@),
            None => Seq::empty(),
        },
    }
}

impl ProgType {
    /// The label of this type as text.
    pub fn label(&self) -> (r: &'static str)
        ensures
            r@ == type_label(*self),
    {
        match self {
            ProgType::Python => "Python",
            ProgType::Rust => "Rust",
            ProgType::JavaScript => "JavaScript",
            ProgType::Bash => "Bash",
        }
    }
}

impl Program {
    /// The bytes of the field `opt` of this program.
    pub fn vals_to_bytes(&self, opt: &ListOpts) -> (r: Vec<u8>)
        ensures
            r@ == field_bytes(*self, *opt),
    {
        let mut out: Vec<u8> = Vec::new();
        match opt {
            ListOpts::Name => push_str_bytes(&mut out, self.name.as_str()),
            ListOpts::Path => push_str_bytes(&mut out, self.path.as_str()),
            ListOpts::Project => out.push(if self.project { 1u8 } else { 0u8 }),
            ListOpts::Type => push_str_bytes(&mut out, self.prog_type.label()),
            ListOpts::Description => match &self.description {
                Some(d) => push_str_bytes(&mut out, d.as_str()),
                None => {},
            },
            ListOpts::Tags => match &self.tags {
                Some(t) => {
                    let n = t.len();
                    let mut i: usize = 0;
                    while i < n
                        invariant
                            0 <= i <= n,
                            n == t@.len(),
                            out@ == joined_bytes(t@.subrange(0, i as int)),
                        decreases n - i,
                    {
                        proof {
                            assert(t@.subrange(0, i + 1).drop_last() == t@.subrange(0, i as int));
                        }
                        push_str_bytes(&mut out, t[i].as_str());
                        i = i + 1;
                    }
                    proof {
                        assert(t@.subrange(0, n as int) == t@);
                    }
                },
                None => {},
            },
        }
        proof {
            assert(out@ =~= field_bytes(*self, *opt));
        }
        out
    }
}

/// What `str::to_lowercase` gives for a text.
pub uninterp spec fn lower_of(s: Seq<char>) -> Seq<char>;

/// Relies on `str::to_lowercase`: Unicode lowercase, which depends on the characters alone.
#[verifier::external_body]
fn lowercase(s: &str) -> (r: String)
    ensures
        r@ == lower_of(s@),
{
    s.to_lowercase()
}

/// The program type that a lowercase name or extension stands for; any other text
/// stands for the default, `Bash`.
pub open spec fn type_of_lower(s: Seq<char>) -> ProgType {
    if s == "py"@ || s == "python"@ {
        ProgType::Python
    } else if s == "js"@ || s == "javascript"@ {
        ProgType::JavaScript
    } else if s == "rs"@ || s == "rust"@ {
        ProgType::Rust
    } else {
        ProgType::Bash
    }
}

/// The file extension of a program type.
pub open spec fn ext_of(t: ProgType) -> Seq<char> {
    match t {
        ProgType::Python => "py"@,
        ProgType::JavaScript => "js"@,
        ProgType::Rust => "rs"@,
        ProgType::Bash => "sh"@,
    }
}

impl ProgType {
    /// The default program type, `Bash`.
    pub fn new() -> (r: Self)
        ensures
            r == ProgType::Bash,
    {
        ProgType::Bash
    }

    /// The program type that an already lowercase name or extension stands for.
    pub fn from_lowercase(s: &str) -> (r: Self)
        ensures
            r == type_of_lower(s@),
    {
        if str_is(s, "py") || str_is(s, "python") {
            ProgType::Python
        } else if str_is(s, "js") || str_is(s, "javascript") {
            ProgType::JavaScript
        } else if str_is(s, "rs") || str_is(s, "rust") {
            ProgType::Rust
        } else {
            ProgType::Bash
        }
    }

    /// The program type that a name or extension stands for, in any case.
    pub fn from_string(prog_type: &str) -> (r: Self)
        ensures
            r == type_of_lower(lower_of(prog_type@)),
    {
        let lower = lowercase(prog_type);
        Self::from_lowercase(lower.as_str())
    }

    /// The file extension of this program type.
    pub fn ext(&self) -> (r: String)
        ensures
            r@ == ext_of(*self),
    {
        match self {
            ProgType::Python => String::from_str("py"),
            ProgType::JavaScript => String::from_str("js"),
            ProgType::Rust => String::from_str("rs"),
            ProgType::Bash => String::from_str("sh"),
        }
    }
}

/// A copy of a list of strings.
pub fn copy_strings(v: &Vec<String>) -> (r: Vec<String>)
    ensures
        r@ == v@,
{
    let mut out: Vec<String> = Vec::new();
    let n = v.len();
    let mut i: usize = 0;
    while i < n
        invariant
            0 <= i <= n,
            n == v@.len(),
            out@ == v@.subrange(0, i as int),
        decreases n - i,
    {
        out.push(v[i].clone());
        proof {
            assert(v@.subrange(0, i + 1) =~= v@.subrange(0, i as int).push(v@[i as int]));
        }
        i = i + 1;
    }
    proof {
        assert(v@.subrange(0, n as int) =~= v@);
    }
    out
}

/// The tag texts of an optional tag list.
pub open spec fn tags_view(t: Option<Vec<String>>) -> Option<Seq<String>> {
    match t {
        Some(v) => Some(v@),
        None => None,
    }
}

/// `a` and `b` hold the same values in every field.
pub open spec fn same_program(a: Program, b: Program) -> bool {
    &&& a.name == b.name
    &&& a.project == b.project
    &&& a.path == b.path
    &&& a.prog_type == b.prog_type
    &&& a.description == b.description
    &&& tags_view(a.tags) == tags_view(b.tags)
}

impl Program {
    /// A copy of this program.
    pub fn duplicate(&self) -> (r: Program)
        ensures
            same_program(r, *self),
    {
        Program {
            name: self.name.clone(),
            project: self.project,
            path: self.path.clone(),
            prog_type: self.prog_type,
            description: match &self.description {
                Some(d) => Some(d.clone()),
                None => None,
            },
            tags: match &self.tags {
                Some(t) => Some(copy_strings(t)),
                None => None,
            },
        }
    }
}

/// One value of a program field, with its own type.
#[derive(Debug, Clone)]
pub enum Field {
    Name(String),
    Project(bool),
    Path(String),
    Type(ProgType),
    Description(Option<String>),
    Tags(Option<Vec<String>>),
}

impl Program {
    /// The field `opt` of this program as a typed value.
    pub fn typed(&self, opt: &ListOpts) -> (r: Field)
        ensures
            match (*opt, r) {
                (ListOpts::Name, Field::Name(v)) => v == self.name,
                (ListOpts::Path, Field::Path(v)) => v == self.path,
                (ListOpts::Project, Field::Project(v)) => v == self.project,
                (ListOpts::Type, Field::Type(v)) => v == self.prog_type,
                (ListOpts::Description, Field::Description(v)) => v == self.description,
                (ListOpts::Tags, Field::Tags(v)) => tags_view(v) == tags_view(self.tags),
                _ => false,
            },
    {
        let copy = self.duplicate();
        match opt {
            ListOpts::Name => Field::Name(copy.name),
            ListOpts::Path => Field::Path(copy.path),
            ListOpts::Project => Field::Project(copy.project),
            ListOpts::Type => Field::Type(copy.prog_type),
            ListOpts::Description => Field::Description(copy.description),
            ListOpts::Tags => Field::Tags(copy.tags),
        }
    }
}

/// Default settings of the registry.
#[derive(Debug, Clone)]
pub struct DefCfg {
    /// Where new programs and projects are made when no path is given.
    pub proj_path: String,
}

/// The last temporary file or project that was made.
#[derive(Debug, Clone, Default)]
pub struct Temp {
    pub path: String,
}

/// The registered programs, each under its name; no name is there twice.
#[derive(Debug, Clone, Default)]
pub struct Programs(pub Vec<(String, Program)>);

/// The registry: the programs, the defaults and the last temporary program.
#[derive(Debug, Clone)]
pub struct Config {
    pub programs: Programs,
    pub defaults: DefCfg,
    pub temp: Program,
}

/// The map from name to program that a list of entries holds; a later entry of a
/// name wins over an earlier one.
pub open spec fn program_map(v: Seq<(String, Program)>) -> Map<Seq<char>, Program>
    decreases v.len(),
{
    if v.len() == 0 {
        Map::empty()
    } else {
        program_map(v.drop_last()).insert(v.last().0@, v.last().1)
    }
}

/// No two entries have the same name.
pub open spec fn names_unique(v: Seq<(String, Program)>) -> bool {
    forall|i: int, j: int|
        0 <= i < v.len() && 0 <= j < v.len() && i != j ==> #[trigger] v[i].0@ != #[trigger] v[j].0@
}

proof fn lemma_program_map_keys(v: Seq<(String, Program)>, k: Seq<char>)
    ensures
        program_map(v).contains_key(k) <==> exists|i: int| 0 <= i < v.len() && #[trigger] v[i].0@ == k,
    decreases v.len(),
{
    if v.len() > 0 {
        lemma_program_map_keys(v.drop_last(), k);
        if program_map(v).contains_key(k) && k != v.last().0@ {
            let i = choose|i: int| 0 <= i < v.len() - 1 && #[trigger] v.drop_last()[i].0@ == k;
            assert(v[i].0@ == k);
        }
        if exists|i: int| 0 <= i < v.len() && #[trigger] v[i].0@ == k {
            let i = choose|i: int| 0 <= i < v.len() && #[trigger] v[i].0@ == k;
            if i < v.len() - 1 {
                assert(v.drop_last()[i].0@ == k);
            }
        }
    }
}

proof fn lemma_program_map_at(v: Seq<(String, Program)>, i: int)
    requires
        names_unique(v),
        0 <= i < v.len(),
    ensures
        program_map(v).contains_key(v[i].0@),
        program_map(v)[v[i].0@] == v[i].1,
    decreases v.len(),
{
    if i < v.len() - 1 {
        let w = v.drop_last();
        assert(w[i] == v[i]);
        assert(names_unique(w)) by {
            assert forall|a: int, b: int|
                0 <= a < w.len() && 0 <= b < w.len() && a != b implies #[trigger] w[a].0@
                != #[trigger] w[b].0@ by {
                assert(w[a] == v[a] && w[b] == v[b]);
            }
        }
        lemma_program_map_at(w, i);
        assert(v[i].0@ != v[v.len() - 1].0@);
    }
}

proof fn lemma_program_map_len(v: Seq<(String, Program)>)
    requires
        names_unique(v),
    ensures
        program_map(v).dom().len() == v.len(),
        program_map(v).dom().finite(),
    decreases v.len(),
{
    if v.len() > 0 {
        let w = v.drop_last();
        assert(names_unique(w)) by {
            assert forall|a: int, b: int|
                0 <= a < w.len() && 0 <= b < w.len() && a != b implies #[trigger] w[a].0@
                != #[trigger] w[b].0@ by {
                assert(w[a] == v[a] && w[b] == v[b]);
            }
        }
        lemma_program_map_len(w);
        lemma_program_map_keys(w, v.last().0@);
        if program_map(w).contains_key(v.last().0@) {
            let i = choose|i: int| 0 <= i < w.len() && #[trigger] w[i].0@ == v.last().0@;
            assert(v[i].0@ == v[v.len() - 1].0@);
        }
    }
}

proof fn lemma_program_map_update(v: Seq<(String, Program)>, i: int, e: (String, Program))
    requires
        names_unique(v),
        0 <= i < v.len(),
        e.0@ == v[i].0@,
    ensures
        names_unique(v.update(i, e)),
        program_map(v.update(i, e)) == program_map(v).insert(e.0@, e.1),
{
    let w = v.update(i, e);
    let k = e.0@;
    let entry = e.1;
    assert(names_unique(w)) by {
        assert forall|a: int, b: int|
            0 <= a < w.len() && 0 <= b < w.len() && a != b implies #[trigger] w[a].0@
            != #[trigger] w[b].0@ by {
            if a != i && b != i {
                assert(w[a] == v[a] && w[b] == v[b]);
            } else if a == i {
                assert(w[b] == v[b]);
            } else {
                assert(w[a] == v[a]);
            }
        }
    }
    assert forall|q: Seq<char>| #[trigger] program_map(w).contains_key(q)
        == program_map(v).insert(k, entry).contains_key(q) by {
        lemma_program_map_keys(w, q);
        lemma_program_map_keys(v, q);
        assert(w[i].0@ == k);
        if exists|j: int| 0 <= j < w.len() && #[trigger] w[j].0@ == q {
            let j = choose|j: int| 0 <= j < w.len() && #[trigger] w[j].0@ == q;
            if j != i {
                assert(v[j].0@ == q);
            }
        }
        if q != k && exists|j: int| 0 <= j < v.len() && #[trigger] v[j].0@ == q {
            let j = choose|j: int| 0 <= j < v.len() && #[trigger] v[j].0@ == q;
            assert(w[j].0@ == q);
        }
    }
    assert forall|q: Seq<char>| #[trigger] program_map(w).contains_key(q) implies
        program_map(w)[q] == program_map(v).insert(k, entry)[q] by {
        lemma_program_map_keys(w, q);
        let j = choose|j: int| 0 <= j < w.len() && #[trigger] w[j].0@ == q;
        lemma_program_map_at(w, j);
        if j != i {
            assert(w[j] == v[j]);
            lemma_program_map_at(v, j);
        }
    }
    assert(program_map(w) =~= program_map(v).insert(k, entry));
}

impl View for Config {
    type V = Map<Seq<char>, Program>;

    open spec fn view(&self) -> Map<Seq<char>, Program> {
        program_map(self.programs.0@)
    }
}

impl Config {
    /// No name is registered twice.
    pub open spec fn wf(&self) -> bool {
        names_unique(self.programs.0@)
    }

    /// An empty registry with the given defaults and temporary program.
    pub fn new(defaults: DefCfg, temp: Program) -> (r: Config)
        ensures
            r.wf(),
            r@ == Map::<Seq<char>, Program>::empty(),
            r.defaults == defaults,
            r.temp == temp,
    {
        Config { programs: Programs(Vec::new()), defaults, temp }
    }

    fn position(&self, key: &str) -> (r: Option<usize>)
        ensures
            match r {
                Some(i) => i < self.programs.0@.len() && self.programs.0@[i as int].0@ == key@,
                None => forall|i: int|
                    0 <= i < self.programs.0@.len() ==> #[trigger] self.programs.0@[i].0@ != key@,
            },
    {
        let n = self.programs.0.len();
        let mut i: usize = 0;
        while i < n
            invariant
                0 <= i <= n,
                n == self.programs.0@.len(),
                forall|j: int| 0 <= j < i ==> #[trigger] self.programs.0@[j].0@ != key@,
            decreases n - i,
        {
            if str_is(self.programs.0[i].0.as_str(), key) {
                return Some(i);
            }
            i = i + 1;
        }
        None
    }

    /// The program registered under `entry`, if any.
    pub fn get(&self, entry: String) -> (r: Option<&Program>)
        requires
            self.wf(),
        ensures
            match r {
                Some(p) => self@.contains_key(entry@) && self@[entry@] == *p,
                None => !self@.contains_key(entry@),
            },
    {
        proof {
            lemma_program_map_keys(self.programs.0@, entry@);
        }
        match self.position(entry.as_str()) {
            Some(i) => {
                proof {
                    lemma_program_map_at(self.programs.0@, i as int);
                }
                Some(&self.programs.0[i].1)
            },
            None => None,
        }
    }

    /// Whether a program is registered under `key`.
    pub fn contains(&self, key: &str) -> (r: bool)
        ensures
            r == self@.contains_key(key@),
    {
        proof {
            lemma_program_map_keys(self.programs.0@, key@);
        }
        self.position(key).is_some()
    }

    /// The number of registered programs.
    pub fn len(&self) -> (r: usize)
        requires
            self.wf(),
        ensures
            r == self@.len(),
    {
        proof {
            lemma_program_map_len(self.programs.0@);
        }
        self.programs.0.len()
    }

    /// Registers `entry` under `key`, in place of any program registered there before.
    pub fn insert(&mut self, key: String, entry: Program)
        requires
            old(self).wf(),
        ensures
            final(self).wf(),
            final(self)@ == old(self)@.insert(key@, entry),
            final(self).defaults == old(self).defaults,
            final(self).temp == old(self).temp,
    {
        let ghost v = self.programs.0@;
        let ghost k = key@;
        match self.position(key.as_str()) {
            Some(i) => {
                proof {
                    lemma_program_map_update(v, i as int, (key, entry));
                }
                self.programs.0.set(i, (key, entry));
            },
            None => {
                self.programs.0.push((key, entry));
                proof {
                    let w = self.programs.0@;
                    assert(w.drop_last() =~= v);
                    assert(names_unique(w)) by {
                        assert forall|a: int, b: int|
                            0 <= a < w.len() && 0 <= b < w.len() && a != b implies #[trigger] w[a].0@
                            != #[trigger] w[b].0@ by {
                            if a < v.len() && b < v.len() {
                                assert(w[a] == v[a] && w[b] == v[b]);
                            } else if a < v.len() {
                                assert(w[a] == v[a]);
                            } else {
                                assert(w[b] == v[b]);
                            }
                        }
                    }
                }
            },
        }
    }

    /// Takes the program registered under `entry` out of the registry; an error when
    /// there is none.
    pub fn remove(&mut self, entry: String) -> (r: Result<(), BoilError>)
        requires
            old(self).wf(),
        ensures
            final(self).wf(),
            final(self).defaults == old(self).defaults,
            final(self).temp == old(self).temp,
            match r {
                Ok(()) => old(self)@.contains_key(entry@) && final(self)@ == old(self)@.remove(
                    entry@,
                ),
                Err(e) => !old(self)@.contains_key(entry@) && final(self)@ == old(self)@ && e
                    == BoilError::NotFound(entry),
            },
    {
        let ghost v = self.programs.0@;
        let ghost k = entry@;
        proof {
            lemma_program_map_keys(v, k);
        }
        match self.position(entry.as_str()) {
            Some(i) => {
                let _gone = self.programs.0.remove(i);
                proof {
                    let w = self.programs.0@;
                    assert(w =~= v.remove(i as int));
                    assert(names_unique(w)) by {
                        assert forall|a: int, b: int|
                            0 <= a < w.len() && 0 <= b < w.len() && a != b implies #[trigger] w[a].0@
                            != #[trigger] w[b].0@ by {
                            let a2 = if a < i { a } else { a + 1 };
                            let b2 = if b < i { b } else { b + 1 };
                            assert(w[a] == v[a2] && w[b] == v[b2]);
                        }
                    }
                    assert forall|q: Seq<char>| #[trigger] program_map(w).contains_key(q)
                        == program_map(v).remove(k).contains_key(q) by {
                        lemma_program_map_keys(w, q);
                        lemma_program_map_keys(v, q);
                        if exists|j: int| 0 <= j < w.len() && #[trigger] w[j].0@ == q {
                            let j = choose|j: int| 0 <= j < w.len() && #[trigger] w[j].0@ == q;
                            let j2 = if j < i { j } else { j + 1 };
                            assert(v[j2].0@ == q);
                            assert(j2 != i);
                        }
                        if q != k && exists|j: int| 0 <= j < v.len() && #[trigger] v[j].0@ == q {
                            let j = choose|j: int| 0 <= j < v.len() && #[trigger] v[j].0@ == q;
                            let j2 = if j < i { j } else { j - 1 };
                            assert(w[j2].0@ == q);
                        }
                    }
                    assert forall|q: Seq<char>| #[trigger] program_map(w).contains_key(q) implies
                        program_map(w)[q] == program_map(v).remove(k)[q] by {
                        lemma_program_map_keys(w, q);
                        let j = choose|j: int| 0 <= j < w.len() && #[trigger] w[j].0@ == q;
                        let j2 = if j < i { j } else { j + 1 };
                        assert(w[j] == v[j2]);
                        lemma_program_map_at(w, j);
                        lemma_program_map_at(v, j2);
                    }
                    assert(program_map(w) =~= program_map(v).remove(k));
                }
                Ok(())
            },
            None => Err(BoilError::NotFound(entry)),
        }
    }

    /// The program registered under `key`, to change in place.
    pub fn get_mut(&mut self, key: &str) -> (r: &mut Program)
        requires
            old(self).wf(),
            old(self)@.contains_key(key@),
        ensures
            *r == old(self)@[key@],
            final(self).wf(),
            final(self)@ == old(self)@.insert(key@, *final(r)),
            final(self).defaults == old(self).defaults,
            final(self).temp == old(self).temp,
    {
        proof {
            lemma_program_map_keys(self.programs.0@, key@);
        }
        let i = match self.position(key) {
            Some(i) => i,
            None => {
                assert(false);
                0
            },
        };
        let ghost v = self.programs.0@;
        proof {
            lemma_program_map_at(v, i as int);
        }
        proof {
            assert forall|e: (String, Program)| e.0@ == v[i as int].0@ implies names_unique(
                #[trigger] v.update(i as int, e),
            ) && program_map(v.update(i as int, e)) == program_map(v).insert(key@, e.1) by {
                lemma_program_map_update(v, i as int, e);
            }
        }
        let entry = &mut self.programs.0[i];
        &mut entry.1
    }

    /// The registered entries, name and program, in the order of registration.
    pub fn iter(&self) -> (r: std::slice::Iter<'_, (String, Program)>)
        ensures
            r.remaining() == self.programs.0@.as_ref(),
    {
        self.programs.0.iter()
    }

    /// Copies of the registered programs, in the order of registration.
    pub fn values(&self) -> (r: Vec<Program>)
        ensures
            r@.len() == self.programs.0@.len(),
            forall|i: int| 0 <= i < r@.len() ==> same_program(#[trigger] r@[i], self.programs.0@[i].1),
    {
        let mut out: Vec<Program> = Vec::new();
        let n = self.programs.0.len();
        let mut i: usize = 0;
        while i < n
            invariant
                0 <= i <= n,
                n == self.programs.0@.len(),
                out@.len() == i,
                forall|j: int| 0 <= j < i ==> same_program(#[trigger] out@[j], self.programs.0@[j].1),
            decreases n - i,
        {
            out.push(self.programs.0[i].1.duplicate());
            i = i + 1;
        }
        out
    }

    /// Sets the default place for new programs.
    pub fn set_proj_path(&mut self, val: &String)
        ensures
            final(self).defaults.proj_path == *val,
            final(self).programs == old(self).programs,
            final(self).temp == old(self).temp,
    {
        self.defaults.proj_path = val.clone();
    }
}

} // verus!
