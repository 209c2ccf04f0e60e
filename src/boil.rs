use vstd::prelude::*;

use crate::args::{AddArgs, EditArgs, EditOptsGroup, NewArgs};
use crate::config::{
    copy_strings, ext_of, lower_of, same_program, tags_view, type_of_lower, Config, ProgType,
    Program,
};
use crate::error::BoilError;
use crate::text::{decimal, push_decimal, string_views};

verus! {

/// What `PathBuf::push` makes of a base path and a path pushed onto it.
pub uninterp spec fn joined_path(base: Seq<char>, tail: Seq<char>) -> Seq<char>;

/// What `Path::is_absolute` says of a path.
pub uninterp spec fn is_absolute_path(p: Seq<char>) -> bool;

/// What `Path::extension` says of a path: whether it has an extension.
pub uninterp spec fn has_extension(p: Seq<char>) -> bool;

/// What `PathBuf::set_extension` makes of a path and an extension.
pub uninterp spec fn with_extension(p: Seq<char>, ext: Seq<char>) -> Seq<char>;

/// Relies on `PathBuf::push`: `tail` joined onto `base` (an absolute `tail` replaces it).
#[verifier::external_body]
fn path_join(base: &str, tail: &str) -> (r: String)
    ensures
        r@ == joined_path(base@, tail@),
{
    let mut b = std::path::PathBuf::from(base);
    b.push(tail);
    b.to_string_lossy().into_owned()
}

/// Relies on `Path::is_absolute`.
#[verifier::external_body]
fn path_is_absolute(p: &str) -> (r: bool)
    ensures
        r == is_absolute_path(p@),
{
    std::path::Path::new(p).is_absolute()
}

/// Relies on `Path::extension`: whether the file name has an extension.
#[verifier::external_body]
fn path_has_extension(p: &str) -> (r: bool)
    ensures
        r == has_extension(p@),
{
    std::path::Path::new(p).extension().is_some()
}

/// Relies on `PathBuf::set_extension`: the path with its extension set to `ext`. It
/// panics on an extension that holds a path separator, which `requires` leaves out.
#[verifier::external_body]
fn path_set_extension(p: &str, ext: &str) -> (r: String)
    requires
        !ext@.contains('/'),
        !ext@.contains('\\'),
    ensures
        r@ == with_extension(p@, ext@),
{
    let mut b = std::path::PathBuf::from(p);
    b.set_extension(ext);
    b.to_string_lossy().into_owned()
}

/// What a path on disk turned out to be.
#[derive(Debug, Clone, Copy, PartialEq, Eq, Structural)]
pub enum PathKind {
    Dir,
    File,
    Other,
}

/// The program type that an optional type name gives: the default when there is none.
pub open spec fn chosen_type(t: Option<String>) -> ProgType {
    match t {
        Some(s) => type_of_lower(lower_of(s@)),
        None => ProgType::Bash,
    }
}

/// The name of a new program: the one given, else `boil` and the number of programs.
pub open spec fn new_name(args: NewArgs, count: nat) -> Seq<char> {
    match args.name {
        Some(n) => n@,
        None => "boil"@ + decimal(count),
    }
}

/// The place of a new program: a temporary one under `temp_dir`, else under the given
/// path (taken as it is when absolute, else under `proj_path`), else under
/// `proj_path`; a project gets a directory of its own name when no path is given, and
/// a script is a file of its own name with the extension of its type.
pub open spec fn new_path(
    args: NewArgs,
    name: Seq<char>,
    temp_dir: Seq<char>,
    proj_path: Seq<char>,
) -> Seq<char> {
    let base = if args.temp {
        if args.project {
            joined_path(temp_dir, name)
        } else {
            temp_dir
        }
    } else {
        match args.path {
            Some(p) => if is_absolute_path(p@) {
                p@
            } else {
                joined_path(proj_path, p@)
            },
            None => if args.project {
                joined_path(proj_path, name)
            } else {
                proj_path
            },
        }
    };
    if args.project {
        base
    } else {
        with_extension(joined_path(base, name), ext_of(chosen_type(args.prog_type)))
    }
}

/// A project path that is given must not have an extension.
pub open spec fn bad_project_path(args: NewArgs) -> bool {
    !args.temp && args.project && match args.path {
        Some(p) => has_extension(p@),
        None => false,
    }
}

proof fn lemma_ext_plain(t: ProgType)
    ensures
        !ext_of(t).contains('/'),
        !ext_of(t).contains('\\'),
{
    reveal_strlit("py");
    reveal_strlit("js");
    reveal_strlit("rs");
    reveal_strlit("sh");
    let e = ext_of(t);
    assert(e.len() == 2);
    assert(e[0] != '/' && e[1] != '/' && e[0] != '\\' && e[1] != '\\');
}

fn optional_copy(s: &Option<String>) -> (r: Option<String>)
    ensures
        r == *s,
{
    match s {
        Some(v) => Some(v.clone()),
        None => None,
    }
}

fn optional_strings(s: &Option<Vec<String>>) -> (r: Option<Vec<String>>)
    ensures
        tags_view(r) == tags_view(*s),
{
    match s {
        Some(v) => Some(copy_strings(v)),
        None => None,
    }
}

fn type_from(t: &Option<String>) -> (r: ProgType)
    ensures
        r == chosen_type(*t),
{
    match t {
        Some(p) => ProgType::from_string(p.as_str()),
        None => ProgType::new(),
    }
}

/// The registry together with the place of its configuration file.
#[derive(Debug)]
pub struct Boil {
    pub config: Config,
    pub cfg_path: String,
}

/// The tags after an edit: the added tags go after the present ones, then every tag
/// that equals one to remove is dropped.
pub open spec fn edited_tags(tags: Option<Seq<String>>, o: EditOptsGroup) -> Option<Seq<String>> {
    let added = match o.tags {
        Some(t) => match tags {
            Some(ts) => Some(ts + t@),
            None => Some(t@),
        },
        None => tags,
    };
    match o.rm_tags {
        Some(rm) => match added {
            Some(ts) => Some(ts.filter(|x: String| !string_views(rm@).contains(x@))),
            None => None,
        },
        None => added,
    }
}

/// `new` is `old` with the changes of `o`: a new description, added and removed tags,
/// a new program type read from its name in any case.
pub open spec fn edit_applied(new: Program, old: Program, o: EditOptsGroup) -> bool {
    &&& new.name == old.name
    &&& new.project == old.project
    &&& new.path == old.path
    &&& new.description == match o.description {
        Some(d) => Some(d),
        None => old.description,
    }
    &&& tags_view(new.tags) == edited_tags(tags_view(old.tags), o)
    &&& new.prog_type == match o.prog_type {
        Some(t) => type_of_lower(lower_of(t@)),
        None => old.prog_type,
    }
}

/// The tags of `tags` that equal none of `rm`, in their order.
pub fn without_tags(tags: &Vec<String>, rm: &Vec<String>) -> (r: Vec<String>)
    ensures
        r@ == tags@.filter(|x: String| !string_views(rm@).contains(x@)),
{
    let ghost keep = |x: String| !string_views(rm@).contains(x@);
    let mut out: Vec<String> = Vec::new();
    let n = tags.len();
    let mut i: usize = 0;
    proof {
        reveal(Seq::filter);
        assert(tags@.take(0) =~= Seq::<String>::empty());
    }
    while i < n
        invariant
            0 <= i <= n,
            n == tags@.len(),
            keep == (|x: String| !string_views(rm@).contains(x@)),
            out@ == tags@.take(i as int).filter(keep),
        decreases n - i,
    {
        let t = &tags[i];
        let m = rm.len();
        let mut j: usize = 0;
        let mut found = false;
        while j < m
            invariant
                0 <= j <= m,
                m == rm@.len(),
                found == exists|k: int| 0 <= k < j && rm@[k]@ == t@,
            decreases m - j,
        {
            if rm[j] == *t {
                found = true;
            }
            j = j + 1;
        }
        proof {
            reveal(Seq::filter);
            assert(tags@.take(i + 1).drop_last() =~= tags@.take(i as int));
            assert(tags@.take(i + 1).last() == *t);
            if found {
                let k = choose|k: int| 0 <= k < m && rm@[k]@ == t@;
                assert(string_views(rm@)[k] == t@);
            } else {
                assert(!string_views(rm@).contains(t@)) by {
                    if string_views(rm@).contains(t@) {
                        let k = choose|k: int| 0 <= k < m && string_views(rm@)[k] == t@;
                        assert(rm@[k]@ == t@);
                    }
                }
            }
        }
        if !found {
            out.push(t.clone());
        }
        i = i + 1;
    }
    proof {
        assert(tags@.take(n as int) =~= tags@);
    }
    out
}

impl Boil {
    /// A registry over `config`, whose file is at `cfg_path`.
    pub fn new(config: Config, cfg_path: String) -> (r: Boil)
        ensures
            r.config == config,
            r.cfg_path == cfg_path,
    {
        Boil { config, cfg_path }
    }

    /// The name for a new program that was given none: `boil` and the number of
    /// registered programs.
    pub fn get_new_name(&self) -> (r: String)
        requires
            self.config.wf(),
        ensures
            r@ == "boil"@ + decimal(self.config@.len()),
    {
        let mut name = String::from_str("boil");
        push_decimal(&mut name, self.config.len());
        name
    }

    /// The registry, to change in place.
    pub fn config_mut(&mut self) -> (r: &mut Config)
        ensures
            *r == old(self).config,
            final(self).config == *final(r),
            final(self).cfg_path == old(self).cfg_path,
    {
        &mut self.config
    }

    /// Applies the changes of `args` to the program it names; an error when no
    /// program has that name.
    pub fn edit(&mut self, args: EditArgs) -> (r: Result<(), BoilError>)
        requires
            old(self).config.wf(),
        ensures
            final(self).config.wf(),
            final(self).cfg_path == old(self).cfg_path,
            final(self).config.defaults == old(self).config.defaults,
            final(self).config.temp == old(self).config.temp,
            match r {
                Ok(()) => {
                    let k = args.name@;
                    &&& old(self).config@.contains_key(k)
                    &&& final(self).config@.contains_key(k)
                    &&& final(self).config@.remove(k) == old(self).config@.remove(k)
                    &&& edit_applied(final(self).config@[k], old(self).config@[k], args.eopts)
                },
                Err(e) => {
                    &&& !old(self).config@.contains_key(args.name@)
                    &&& e == BoilError::NotFound(args.name)
                    &&& final(self).config == old(self).config
                },
            },
    {
        let ghost k = args.name@;
        let mut entry = match self.config.get(args.name.clone()) {
            Some(p) => p.duplicate(),
            None => {
                return Err(BoilError::NotFound(args.name));
            },
        };
        let ghost before = self.config@[k];
        let EditArgs { eopts, name } = args;
        let ghost o = eopts;
        let EditOptsGroup { description, tags, rm_tags, prog_type } = eopts;
        if let Some(d) = description {
            entry.description = Some(d);
        }
        if let Some(mut t) = tags {
            match entry.tags {
                Some(mut present) => {
                    present.append(&mut t);
                    entry.tags = Some(present);
                },
                None => {
                    entry.tags = Some(t);
                },
            }
        }
        if let Some(rm) = rm_tags {
            match entry.tags {
                Some(present) => {
                    entry.tags = Some(without_tags(&present, &rm));
                },
                None => {
                    entry.tags = None;
                },
            }
        }
        if let Some(p) = prog_type {
            entry.prog_type = ProgType::from_string(p.as_str());
        }
        proof {
            assert(edit_applied(entry, before, o));
        }
        self.config.insert(name, entry);
        proof {
            assert(self.config@.remove(k) =~= old(self).config@.remove(k));
        }
        Ok(())
    }

    /// The program that `new` would make: an error when its name is taken, or when a
    /// project is given a path with an extension. `temp_dir` is the place for
    /// temporary files.
    pub fn parse_new(&self, args: &NewArgs, temp_dir: &String) -> (r: Result<Program, BoilError>)
        requires
            self.config.wf(),
        ensures
            ({
                let name = new_name(*args, self.config@.len());
                match r {
                    Ok(p) => {
                        &&& !self.config@.contains_key(name)
                        &&& !bad_project_path(*args)
                        &&& p.name@ == name
                        &&& p.project == args.project
                        &&& p.path@ == new_path(
                            *args,
                            name,
                            temp_dir@,
                            self.config.defaults.proj_path@,
                        )
                        &&& p.prog_type == chosen_type(args.prog_type)
                        &&& p.description == args.description
                        &&& tags_view(p.tags) == tags_view(args.tags)
                    },
                    Err(BoilError::NameExists(n)) => self.config@.contains_key(name) && n@ == name,
                    Err(BoilError::InvalidPath(q)) => {
                        &&& !self.config@.contains_key(name)
                        &&& bad_project_path(*args)
                        &&& args.path matches Some(given) && q == given
                    },
                    Err(_) => false,
                }
            }),
    {
        let name = match &args.name {
            Some(n) => n.clone(),
            None => self.get_new_name(),
        };
        if self.config.contains(name.as_str()) {
            return Err(BoilError::NameExists(name));
        }
        let proj_path = self.config.defaults.proj_path.as_str();
        let base: String = if args.temp {
            if args.project {
                path_join(temp_dir.as_str(), name.as_str())
            } else {
                temp_dir.clone()
            }
        } else {
            match &args.path {
                Some(p) => {
                    if args.project && path_has_extension(p.as_str()) {
                        return Err(BoilError::InvalidPath(p.clone()));
                    }
                    if path_is_absolute(p.as_str()) {
                        p.clone()
                    } else {
                        path_join(proj_path, p.as_str())
                    }
                },
                None => {
                    if args.project {
                        path_join(proj_path, name.as_str())
                    } else {
                        proj_path.to_owned()
                    }
                },
            }
        };
        let prog_type = type_from(&args.prog_type);
        let path = if args.project {
            base
        } else {
            let file = path_join(base.as_str(), name.as_str());
            let ext = prog_type.ext();
            proof {
                lemma_ext_plain(prog_type);
            }
            path_set_extension(file.as_str(), ext.as_str())
        };
        Ok(
            Program {
                name,
                project: args.project,
                prog_type,
                path,
                description: optional_copy(&args.description),
                tags: optional_strings(&args.tags),
            },
        )
    }

    /// Keeps a new program: in the registry under its name, or as the temporary program.
    pub fn keep_new(&mut self, program: Program, temp: bool)
        requires
            old(self).config.wf(),
        ensures
            final(self).config.wf(),
            final(self).cfg_path == old(self).cfg_path,
            final(self).config.defaults == old(self).config.defaults,
            temp ==> final(self).config@ == old(self).config@ && final(self).config.temp == program,
            !temp ==> final(self).config@ == old(self).config@.insert(program.name@, program)
                && final(self).config.temp == old(self).config.temp,
    {
        if temp {
            self.config.temp = program;
        } else {
            let key = program.name.clone();
            self.config.insert(key, program);
        }
    }

    /// Registers an existing program at a path of the given kind: a directory is a
    /// project, a file a script. An error when the name is taken, or when the path is
    /// neither.
    pub fn add_existing(&mut self, args: AddArgs, kind: PathKind) -> (r: Result<(), BoilError>)
        requires
            old(self).config.wf(),
        ensures
            final(self).config.wf(),
            final(self).cfg_path == old(self).cfg_path,
            final(self).config.defaults == old(self).config.defaults,
            final(self).config.temp == old(self).config.temp,
            match r {
                Ok(()) => {
                    let p = final(self).config@[args.name@];
                    &&& !old(self).config@.contains_key(args.name@)
                    &&& kind != PathKind::Other
                    &&& final(self).config@ == old(self).config@.insert(args.name@, p)
                    &&& p.name == args.name
                    &&& p.project == (kind == PathKind::Dir)
                    &&& p.path == args.path
                    &&& p.prog_type == chosen_type(args.prog_type)
                    &&& p.description == args.description
                    &&& tags_view(p.tags) == tags_view(args.tags)
                },
                Err(e) => final(self).config == old(self).config && if old(self).config@.contains_key(
                    args.name@,
                ) {
                    e == BoilError::NameExists(args.name)
                } else {
                    kind == PathKind::Other && e == BoilError::InvalidPath(args.path)
                },
            },
    {
        if self.config.contains(args.name.as_str()) {
            return Err(BoilError::NameExists(args.name));
        }
        let project = match kind {
            PathKind::Dir => true,
            PathKind::File => false,
            PathKind::Other => {
                return Err(BoilError::InvalidPath(args.path));
            },
        };
        let prog_type = type_from(&args.prog_type);
        let AddArgs { description, tags, prog_type: _, name, path } = args;
        let key = name.clone();
        let program = Program { name, description, project, prog_type, path, tags };
        self.config.insert(key, program);
        Ok(())
    }
}

} // verus!
