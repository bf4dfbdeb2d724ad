//! Runtime setup for the portable build.
//!
//! GTK, GLib, gdk-pixbuf and GStreamer all locate their data files by deriving an installation
//! prefix from the library that is running. The portable build ships the libraries next to the
//! executable, so the paths are pointed at the application directory explicitly. Every step is
//! skipped when its directory is missing, which keeps a development build that uses a system
//! installation untouched.
//!
//! The setup asks one question at a time of whoever can reach the file system and the
//! environment: [`Setup::request`] says what is to be done, and [`prepare_environment`] takes
//! the answer.

use vstd::prelude::*;
use vstd::string::*;

use crate::text::{contains_text, replace_text};

verus! {

/// Stands in the shipped gdk-pixbuf loader cache for the application directory, because the
/// cache stores absolute paths.
pub const APPDIR_TOKEN: &'static str = "@APPDIR@";

/// The directory that a place is looked up from.
#[derive(Debug, Clone, Copy, PartialEq, Eq, Structural)]
pub enum Base {
    /// The directory holding the running executable.
    AppDir,
    /// The directory for temporary files.
    TempDir,
}

/// A file or directory that the setup deals with.
#[derive(Debug, Clone, Copy, PartialEq, Eq, Structural)]
pub enum Place {
    Schemas,
    CompiledSchemas,
    Share,
    Icons,
    Plugins,
    LoaderCache,
    PatchedCache,
    Locale,
}

impl Place {
    pub open spec fn spec_base(self) -> Base {
        if self == Place::PatchedCache {
            Base::TempDir
        } else {
            Base::AppDir
        }
    }

    /// The directory that the place is looked up from.
    pub fn base(self) -> (base: Base)
        ensures
            base == self.spec_base(),
            base is TempDir <==> self is PatchedCache,
            base is AppDir <==> !(self is PatchedCache),
    {
        match self {
            Place::PatchedCache => Base::TempDir,
            _ => Base::AppDir,
        }
    }

    pub open spec fn spec_parts(self) -> Seq<Seq<char>> {
        match self {
            Place::Schemas => seq!["share/glib-2.0/schemas"@],
            Place::CompiledSchemas => seq!["share/glib-2.0/schemas"@, "gschemas.compiled"@],
            Place::Share => seq!["share"@],
            Place::Icons => seq!["share"@, "icons"@],
            Place::Plugins => seq!["lib/gstreamer-1.0"@],
            Place::LoaderCache => seq!["lib/gdk-pixbuf-2.0/2.10.0/loaders"@, "loaders.cache"@],
            Place::PatchedCache => seq!["tsukimi-gdk-pixbuf-loaders.cache"@],
            Place::Locale => seq!["share/locale"@],
        }
    }

    /// The relative paths that lead from the base to the place, to be joined in turn.
    pub fn parts(self) -> (parts: Vec<&'static str>)
        ensures
            parts@.map_values(|part: &'static str| part@) == self.spec_parts(),
            match self {
                Place::Schemas => parts@.len() == 1 && parts@[0]@ == "share/glib-2.0/schemas"@,
                Place::CompiledSchemas => parts@.len() == 2 && parts@[0]@
                    == "share/glib-2.0/schemas"@ && parts@[1]@ == "gschemas.compiled"@,
                Place::Share => parts@.len() == 1 && parts@[0]@ == "share"@,
                Place::Icons => parts@.len() == 2 && parts@[0]@ == "share"@ && parts@[1]@
                    == "icons"@,
                Place::Plugins => parts@.len() == 1 && parts@[0]@ == "lib/gstreamer-1.0"@,
                Place::LoaderCache => parts@.len() == 2 && parts@[0]@
                    == "lib/gdk-pixbuf-2.0/2.10.0/loaders"@ && parts@[1]@ == "loaders.cache"@,
                Place::PatchedCache => parts@.len() == 1 && parts@[0]@
                    == "tsukimi-gdk-pixbuf-loaders.cache"@,
                Place::Locale => parts@.len() == 1 && parts@[0]@ == "share/locale"@,
            },
    {
        let parts: Vec<&'static str> = match self {
            Place::Schemas => vec!["share/glib-2.0/schemas"],
            Place::CompiledSchemas => vec!["share/glib-2.0/schemas", "gschemas.compiled"],
            Place::Share => vec!["share"],
            Place::Icons => vec!["share", "icons"],
            Place::Plugins => vec!["lib/gstreamer-1.0"],
            Place::LoaderCache => vec!["lib/gdk-pixbuf-2.0/2.10.0/loaders", "loaders.cache"],
            Place::PatchedCache => vec!["tsukimi-gdk-pixbuf-loaders.cache"],
            Place::Locale => vec!["share/locale"],
        };
        parts
    }
}

/// An environment variable that the setup points at a place.
#[derive(Debug, Clone, Copy, PartialEq, Eq, Structural)]
pub enum Variable {
    SchemaDir,
    DataDirs,
    PluginPath,
    PixbufModuleFile,
}

impl Variable {
    pub open spec fn spec_name(self) -> Seq<char> {
        match self {
            Variable::SchemaDir => "GSETTINGS_SCHEMA_DIR"@,
            Variable::DataDirs => "XDG_DATA_DIRS"@,
            Variable::PluginPath => "GST_PLUGIN_PATH_1_0"@,
            Variable::PixbufModuleFile => "GDK_PIXBUF_MODULE_FILE"@,
        }
    }

    /// The name of the variable.
    pub fn name(self) -> (name: &'static str)
        ensures
            name@ == self.spec_name(),
            self is SchemaDir ==> name@ == "GSETTINGS_SCHEMA_DIR"@,
            self is DataDirs ==> name@ == "XDG_DATA_DIRS"@,
            self is PluginPath ==> name@ == "GST_PLUGIN_PATH_1_0"@,
            self is PixbufModuleFile ==> name@ == "GDK_PIXBUF_MODULE_FILE"@,
    {
        match self {
            Variable::SchemaDir => "GSETTINGS_SCHEMA_DIR",
            Variable::DataDirs => "XDG_DATA_DIRS",
            Variable::PluginPath => "GST_PLUGIN_PATH_1_0",
            Variable::PixbufModuleFile => "GDK_PIXBUF_MODULE_FILE",
        }
    }
}

/// A path with forward slashes.
pub open spec fn forward_slashes(path: Seq<char>) -> Seq<char> {
    path.map_values(
        |c: char|
            if c == '\\' {
                '/'
            } else {
                c
            },
    )
}

/// The text of the loader cache for an installation in `dir`.
pub open spec fn patched_cache(contents: Seq<char>, dir: Seq<char>) -> Option<Seq<char>> {
    if crate::text::contains(contents, APPDIR_TOKEN@) {
        Some(crate::text::replaced(contents, APPDIR_TOKEN@, forward_slashes(dir)))
    } else {
        None
    }
}

/// The loader cache generated at build time with its paths rewritten to the installation in
/// `dir`, or `None` where it holds no path to rewrite.
pub fn patch_loader_cache(contents: &str, dir: &str) -> (patched: Option<String>)
    ensures
        patched is Some <==> patched_cache(contents@, dir@) is Some,
        patched matches Some(text) ==> Some(text@) == patched_cache(contents@, dir@),
        patched is Some <==> exists|at: int|
            0 <= at && at + 8 <= contents@.len() && #[trigger] contents@.subrange(at, at + 8)
                == "@APPDIR@"@,
        patched matches Some(text) ==> exists|path: Seq<char>|
            {
                &&& path.len() == dir@.len()
                &&& forall|k: int|
                    0 <= k < path.len() ==> #[trigger] path[k] == (if dir@[k] == '\\' {
                        '/'
                    } else {
                        dir@[k]
                    })
                &&& text@ == #[trigger] crate::text::replaced(contents@, "@APPDIR@"@, path)
            },
{
    proof {
        lemma_patched_where_token_occurs(contents@, dir@);
        lemma_forward_slashes(dir@);
    }
    if !contains_text(contents, APPDIR_TOKEN) {
        return None;
    }
    proof {
        reveal_strlit("@APPDIR@");
        reveal_strlit("\\");
        reveal_strlit("/");
        assert("\\"@ =~= seq!['\\']);
        assert("/"@ =~= seq!['/']);
        crate::text::lemma_replaced_char(dir@, '\\', '/');
    }
    let dir = replace_text(dir, "\\", "/");
    let patched = replace_text(contents, APPDIR_TOKEN, dir.as_str());
    assert(patched@ == crate::text::replaced(contents@, "@APPDIR@"@, dir@));
    Some(patched)
}

/// How far the setup has come.
#[derive(Debug, Clone, Copy, PartialEq, Eq, Structural)]
pub enum Step {
    FindAppDir,
    CheckSchemas,
    SetSchemas,
    CheckIcons,
    SetDataDirs,
    CheckPlugins,
    SetPlugins,
    CheckCache,
    ReadCache,
    WriteCache,
    SetPatched,
    SetShipped,
    Finished,
}

/// Something that the setup wants done.
#[derive(Debug)]
pub enum Request {
    /// Find the application directory.
    AppDir,
    /// Find out whether the place exists.
    Exists(Place),
    /// Read the text at the place.
    Read(Place),
    /// Write the text to the place.
    Write(Place, String),
    /// Point the variable at the place.
    SetVar(Variable, Place),
    /// Nothing more is to be done.
    Nothing,
}

/// The answer to a request.
#[derive(Debug)]
pub enum Reply {
    /// The application directory as text, `None` where it is unknown.
    AppDir(Option<String>),
    /// Whether the place exists.
    Exists(bool),
    /// The text that was read, `None` where reading failed.
    Text(Option<String>),
    /// Whether the text was written.
    Written(bool),
    /// The variable is set.
    VarSet,
}

/// The setup between two requests.
#[derive(Debug)]
pub struct Setup {
    pub step: Step,
    /// The application directory, once it is known.
    pub dir: String,
    /// The rewritten loader cache, once it is made.
    pub patched: String,
}

/// A request with its text as a sequence of characters.
pub enum RequestModel {
    AppDir,
    Exists(Place),
    Read(Place),
    Write(Place, Seq<char>),
    SetVar(Variable, Place),
    Nothing,
}

/// A reply with its text as a sequence of characters.
pub enum ReplyModel {
    AppDir(Option<Seq<char>>),
    Exists(bool),
    Text(Option<Seq<char>>),
    Written(bool),
    VarSet,
}

/// A setup with its texts as sequences of characters.
#[verifier::ext_equal]
pub struct SetupModel {
    pub step: Step,
    pub dir: Seq<char>,
    pub patched: Seq<char>,
}

/// The characters of a text that may be missing.
pub open spec fn text_view(text: Option<String>) -> Option<Seq<char>> {
    match text {
        Some(text) => Some(text@),
        None => None,
    }
}

impl View for Request {
    type V = RequestModel;

    open spec fn view(&self) -> RequestModel {
        match *self {
            Request::AppDir => RequestModel::AppDir,
            Request::Exists(place) => RequestModel::Exists(place),
            Request::Read(place) => RequestModel::Read(place),
            Request::Write(place, text) => RequestModel::Write(place, text@),
            Request::SetVar(variable, place) => RequestModel::SetVar(variable, place),
            Request::Nothing => RequestModel::Nothing,
        }
    }
}

impl View for Reply {
    type V = ReplyModel;

    open spec fn view(&self) -> ReplyModel {
        match *self {
            Reply::AppDir(dir) => ReplyModel::AppDir(text_view(dir)),
            Reply::Exists(found) => ReplyModel::Exists(found),
            Reply::Text(text) => ReplyModel::Text(text_view(text)),
            Reply::Written(done) => ReplyModel::Written(done),
            Reply::VarSet => ReplyModel::VarSet,
        }
    }
}

impl View for Setup {
    type V = SetupModel;

    open spec fn view(&self) -> SetupModel {
        SetupModel { step: self.step, dir: self.dir@, patched: self.patched@ }
    }
}

impl SetupModel {
    pub open spec fn start() -> Self {
        SetupModel { step: Step::FindAppDir, dir: seq![], patched: seq![] }
    }

    pub open spec fn at(self, step: Step) -> Self {
        SetupModel { step, ..self }
    }

    /// What is to be done at this point.
    pub open spec fn request(self) -> RequestModel {
        match self.step {
            Step::FindAppDir => RequestModel::AppDir,
            Step::CheckSchemas => RequestModel::Exists(Place::CompiledSchemas),
            Step::SetSchemas => RequestModel::SetVar(Variable::SchemaDir, Place::Schemas),
            Step::CheckIcons => RequestModel::Exists(Place::Icons),
            Step::SetDataDirs => RequestModel::SetVar(Variable::DataDirs, Place::Share),
            Step::CheckPlugins => RequestModel::Exists(Place::Plugins),
            Step::SetPlugins => RequestModel::SetVar(Variable::PluginPath, Place::Plugins),
            Step::CheckCache => RequestModel::Exists(Place::LoaderCache),
            Step::ReadCache => RequestModel::Read(Place::LoaderCache),
            Step::WriteCache => RequestModel::Write(Place::PatchedCache, self.patched),
            Step::SetPatched => RequestModel::SetVar(
                Variable::PixbufModuleFile,
                Place::PatchedCache,
            ),
            Step::SetShipped => RequestModel::SetVar(
                Variable::PixbufModuleFile,
                Place::LoaderCache,
            ),
            Step::Finished => RequestModel::Nothing,
        }
    }

    /// Where the setup goes on after `reply`. A reply that does not answer the request leaves it
    /// where it is.
    pub open spec fn after(self, reply: ReplyModel) -> Self {
        match (self.step, reply) {
            (Step::FindAppDir, ReplyModel::AppDir(None)) => self.at(Step::Finished),
            (Step::FindAppDir, ReplyModel::AppDir(Some(dir))) => SetupModel {
                step: Step::CheckSchemas,
                dir,
                patched: self.patched,
            },
            (Step::CheckSchemas, ReplyModel::Exists(found)) => self.at(
                if found {
                    Step::SetSchemas
                } else {
                    Step::CheckIcons
                },
            ),
            (Step::SetSchemas, ReplyModel::VarSet) => self.at(Step::CheckIcons),
            (Step::CheckIcons, ReplyModel::Exists(found)) => self.at(
                if found {
                    Step::SetDataDirs
                } else {
                    Step::CheckPlugins
                },
            ),
            (Step::SetDataDirs, ReplyModel::VarSet) => self.at(Step::CheckPlugins),
            (Step::CheckPlugins, ReplyModel::Exists(found)) => self.at(
                if found {
                    Step::SetPlugins
                } else {
                    Step::CheckCache
                },
            ),
            (Step::SetPlugins, ReplyModel::VarSet) => self.at(Step::CheckCache),
            (Step::CheckCache, ReplyModel::Exists(found)) => self.at(
                if found {
                    Step::ReadCache
                } else {
                    Step::Finished
                },
            ),
            (Step::ReadCache, ReplyModel::Text(None)) => self.at(Step::SetShipped),
            (Step::ReadCache, ReplyModel::Text(Some(contents))) => match patched_cache(
                contents,
                self.dir,
            ) {
                Some(patched) => SetupModel { step: Step::WriteCache, dir: self.dir, patched },
                None => self.at(Step::SetShipped),
            },
            (Step::WriteCache, ReplyModel::Written(done)) => self.at(
                if done {
                    Step::SetPatched
                } else {
                    Step::SetShipped
                },
            ),
            (Step::SetPatched, ReplyModel::VarSet) => self.at(Step::Finished),
            (Step::SetShipped, ReplyModel::VarSet) => self.at(Step::Finished),
            _ => self,
        }
    }
}

impl Setup {
    /// The setup before its first request.
    pub fn start() -> (setup: Self)
        ensures
            setup@ == SetupModel::start(),
            setup.step is FindAppDir,
            setup.dir@.len() == 0,
            setup.patched@.len() == 0,
    {
        Setup { step: Step::FindAppDir, dir: String::new(), patched: String::new() }
    }

    fn at(self, step: Step) -> (setup: Self)
        ensures
            setup@ == self@.at(step),
            setup.step == step,
            setup.dir == self.dir,
            setup.patched == self.patched,
    {
        Setup { step, dir: self.dir, patched: self.patched }
    }

    /// What is to be done at this point.
    pub fn request(&self) -> (request: Request)
        ensures
            request@ == self@.request(),
            match self.step {
                Step::FindAppDir => request is AppDir,
                Step::CheckSchemas => request == Request::Exists(Place::CompiledSchemas),
                Step::SetSchemas => request == Request::SetVar(Variable::SchemaDir, Place::Schemas),
                Step::CheckIcons => request == Request::Exists(Place::Icons),
                Step::SetDataDirs => request == Request::SetVar(Variable::DataDirs, Place::Share),
                Step::CheckPlugins => request == Request::Exists(Place::Plugins),
                Step::SetPlugins => request == Request::SetVar(
                    Variable::PluginPath,
                    Place::Plugins,
                ),
                Step::CheckCache => request == Request::Exists(Place::LoaderCache),
                Step::ReadCache => request == Request::Read(Place::LoaderCache),
                Step::WriteCache => request matches Request::Write(place, text) && place
                    is PatchedCache && text@ == self.patched@,
                Step::SetPatched => request == Request::SetVar(
                    Variable::PixbufModuleFile,
                    Place::PatchedCache,
                ),
                Step::SetShipped => request == Request::SetVar(
                    Variable::PixbufModuleFile,
                    Place::LoaderCache,
                ),
                Step::Finished => request is Nothing,
            },
    {
        match self.step {
            Step::FindAppDir => Request::AppDir,
            // GSettings schemas: GTK aborts without its own, libadwaita without its own, and the
            // client needs its own for the account settings.
            Step::CheckSchemas => Request::Exists(Place::CompiledSchemas),
            Step::SetSchemas => Request::SetVar(Variable::SchemaDir, Place::Schemas),
            // Icon themes live under <prefix>/share/icons, which GTK finds through the XDG data
            // directories.
            Step::CheckIcons => Request::Exists(Place::Icons),
            Step::SetDataDirs => Request::SetVar(Variable::DataDirs, Place::Share),
            Step::CheckPlugins => Request::Exists(Place::Plugins),
            Step::SetPlugins => Request::SetVar(Variable::PluginPath, Place::Plugins),
            // gdk-pixbuf loaders. The cache generated at build time refers to another prefix, so
            // the paths are rewritten to this installation before use.
            Step::CheckCache => Request::Exists(Place::LoaderCache),
            Step::ReadCache => Request::Read(Place::LoaderCache),
            Step::WriteCache => Request::Write(Place::PatchedCache, self.patched.clone()),
            Step::SetPatched => Request::SetVar(Variable::PixbufModuleFile, Place::PatchedCache),
            Step::SetShipped => Request::SetVar(Variable::PixbufModuleFile, Place::LoaderCache),
            Step::Finished => Request::Nothing,
        }
    }
}

/// Takes the answer to the request of `setup` and says where the setup goes on. A reply that does
/// not answer the request leaves it where it is.
pub fn prepare_environment(setup: Setup, reply: Reply) -> (next: Setup)
    ensures
        next@ == setup@.after(reply@),
        match (setup.step, reply) {
            (Step::FindAppDir, Reply::AppDir(None)) => next.step is Finished,
            (Step::FindAppDir, Reply::AppDir(Some(dir))) => next.step is CheckSchemas && next.dir@
                == dir@,
            (Step::CheckSchemas, Reply::Exists(true)) => next.step is SetSchemas,
            (Step::CheckSchemas, Reply::Exists(false)) => next.step is CheckIcons,
            (Step::SetSchemas, Reply::VarSet) => next.step is CheckIcons,
            (Step::CheckIcons, Reply::Exists(true)) => next.step is SetDataDirs,
            (Step::CheckIcons, Reply::Exists(false)) => next.step is CheckPlugins,
            (Step::SetDataDirs, Reply::VarSet) => next.step is CheckPlugins,
            (Step::CheckPlugins, Reply::Exists(true)) => next.step is SetPlugins,
            (Step::CheckPlugins, Reply::Exists(false)) => next.step is CheckCache,
            (Step::SetPlugins, Reply::VarSet) => next.step is CheckCache,
            (Step::CheckCache, Reply::Exists(true)) => next.step is ReadCache,
            (Step::CheckCache, Reply::Exists(false)) => next.step is Finished,
            (Step::ReadCache, Reply::Text(None)) => next.step is SetShipped,
            (Step::ReadCache, Reply::Text(Some(contents))) => {
                &&& next.step is WriteCache <==> crate::text::contains(contents@, "@APPDIR@"@)
                &&& next.step is SetShipped <==> !crate::text::contains(contents@, "@APPDIR@"@)
                &&& next.step is WriteCache ==> next.patched@ == crate::text::replaced(
                    contents@,
                    "@APPDIR@"@,
                    forward_slashes(setup.dir@),
                )
            },
            (Step::WriteCache, Reply::Written(true)) => next.step is SetPatched,
            (Step::WriteCache, Reply::Written(false)) => next.step is SetShipped,
            (Step::SetPatched, Reply::VarSet) => next.step is Finished,
            (Step::SetShipped, Reply::VarSet) => next.step is Finished,
            _ => next == setup,
        },
        !(setup.step is FindAppDir) ==> next.dir@ == setup.dir@,
        !(setup.step is ReadCache) ==> next.patched@ == setup.patched@,
{
    match (setup.step, reply) {
        (Step::FindAppDir, Reply::AppDir(None)) => setup.at(Step::Finished),
        (Step::FindAppDir, Reply::AppDir(Some(dir))) => Setup {
            step: Step::CheckSchemas,
            dir,
            patched: setup.patched,
        },
        (Step::CheckSchemas, Reply::Exists(found)) => setup.at(
            if found {
                Step::SetSchemas
            } else {
                Step::CheckIcons
            },
        ),
        (Step::SetSchemas, Reply::VarSet) => setup.at(Step::CheckIcons),
        (Step::CheckIcons, Reply::Exists(found)) => setup.at(
            if found {
                Step::SetDataDirs
            } else {
                Step::CheckPlugins
            },
        ),
        (Step::SetDataDirs, Reply::VarSet) => setup.at(Step::CheckPlugins),
        (Step::CheckPlugins, Reply::Exists(found)) => setup.at(
            if found {
                Step::SetPlugins
            } else {
                Step::CheckCache
            },
        ),
        (Step::SetPlugins, Reply::VarSet) => setup.at(Step::CheckCache),
        (Step::CheckCache, Reply::Exists(found)) => setup.at(
            if found {
                Step::ReadCache
            } else {
                Step::Finished
            },
        ),
        (Step::ReadCache, Reply::Text(None)) => setup.at(Step::SetShipped),
        (Step::ReadCache, Reply::Text(Some(contents))) => match patch_loader_cache(
            contents.as_str(),
            setup.dir.as_str(),
        ) {
            Some(patched) => Setup { step: Step::WriteCache, dir: setup.dir, patched },
            None => setup.at(Step::SetShipped),
        },
        (Step::WriteCache, Reply::Written(done)) => setup.at(
            if done {
                Step::SetPatched
            } else {
                Step::SetShipped
            },
        ),
        (Step::SetPatched, Reply::VarSet) => setup.at(Step::Finished),
        (Step::SetShipped, Reply::VarSet) => setup.at(Step::Finished),
        _ => setup,
    }
}

/// Only the rewritten loader cache lies outside the application directory, in the directory for
/// temporary files. What is looked for and what its variable is pointed at lie under the same
/// directory.
pub proof fn lemma_place_bases(place: Place)
    ensures
        place.spec_base() is TempDir <==> place is PatchedCache,
        place.spec_base() is AppDir <==> !(place is PatchedCache),
        Place::CompiledSchemas.spec_base() == Place::Schemas.spec_base(),
        Place::Icons.spec_base() == Place::Share.spec_base(),
{
}

/// What is looked for stands directly in the directory that its variable is pointed at.
pub proof fn lemma_checked_places()
    ensures
        Place::CompiledSchemas.spec_parts() == Place::Schemas.spec_parts().push(
            "gschemas.compiled"@,
        ),
        Place::Icons.spec_parts() == Place::Share.spec_parts().push("icons"@),
{
    assert(Place::CompiledSchemas.spec_parts() =~= Place::Schemas.spec_parts().push(
        "gschemas.compiled"@,
    ));
    assert(Place::Icons.spec_parts() =~= Place::Share.spec_parts().push("icons"@));
}

/// Where each place lies below its base.
pub proof fn lemma_place_parts(place: Place)
    ensures
        place is Schemas ==> place.spec_parts() == seq!["share/glib-2.0/schemas"@],
        place is CompiledSchemas ==> place.spec_parts() == seq![
            "share/glib-2.0/schemas"@,
            "gschemas.compiled"@,
        ],
        place is Share ==> place.spec_parts() == seq!["share"@],
        place is Icons ==> place.spec_parts() == seq!["share"@, "icons"@],
        place is Plugins ==> place.spec_parts() == seq!["lib/gstreamer-1.0"@],
        place is LoaderCache ==> place.spec_parts() == seq![
            "lib/gdk-pixbuf-2.0/2.10.0/loaders"@,
            "loaders.cache"@,
        ],
        place is PatchedCache ==> place.spec_parts() == seq!["tsukimi-gdk-pixbuf-loaders.cache"@],
        place is Locale ==> place.spec_parts() == seq!["share/locale"@],
{
}

/// The variables have the names that the libraries know them by.
pub proof fn lemma_variable_names(variable: Variable)
    ensures
        variable is SchemaDir ==> variable.spec_name() == "GSETTINGS_SCHEMA_DIR"@,
        variable is DataDirs ==> variable.spec_name() == "XDG_DATA_DIRS"@,
        variable is PluginPath ==> variable.spec_name() == "GST_PLUGIN_PATH_1_0"@,
        variable is PixbufModuleFile ==> variable.spec_name() == "GDK_PIXBUF_MODULE_FILE"@,
{
}

/// Every backslash of a path becomes a slash, and every other character stays.
pub proof fn lemma_forward_slashes(path: Seq<char>)
    ensures
        forward_slashes(path).len() == path.len(),
        forall|k: int|
            0 <= k < path.len() ==> #[trigger] forward_slashes(path)[k] == (if path[k] == '\\' {
                '/'
            } else {
                path[k]
            }),
{
}

/// The cache is rewritten exactly where the token stands somewhere in it, whatever else it holds
/// and whatever the directory is.
pub proof fn lemma_patched_where_token_occurs(contents: Seq<char>, dir: Seq<char>)
    ensures
        patched_cache(contents, dir) is Some <==> exists|at: int|
            0 <= at && at + 8 <= contents.len() && #[trigger] contents.subrange(at, at + 8)
                == "@APPDIR@"@,
{
    reveal_strlit("@APPDIR@");
    crate::text::lemma_contains_is_somewhere(contents, "@APPDIR@"@);
}

/// A cache is rewritten from its first token on: what stands before it is kept, the directory with
/// forward slashes comes in its place, and what follows is rewritten in turn.
pub proof fn lemma_patched_from_first_token(before: Seq<char>, after: Seq<char>, dir: Seq<char>)
    requires
        forall|at: int|
            0 <= at < before.len() ==> #[trigger] (before + "@APPDIR@"@ + after).subrange(at, at + 8)
                != "@APPDIR@"@,
    ensures
        patched_cache(before + "@APPDIR@"@ + after, dir) == Some(
            before + forward_slashes(dir) + (match patched_cache(after, dir) {
                Some(rest) => rest,
                None => after,
            }),
        ),
{
    reveal_strlit("@APPDIR@");
    let token = "@APPDIR@"@;
    let path = forward_slashes(dir);
    let text = before + token + after;
    crate::text::lemma_contains_is_between(text, token);
    crate::text::lemma_replaced_at_first_occurrence(before, token, after, path);
    if !crate::text::contains(after, token) {
        assert forall|at: int| 0 <= at && at + token.len() <= after.len() implies
            #[trigger] after.subrange(at, at + token.len()) != token by {
            assert(!crate::text::occurs_at(after, token, at));
        }
        crate::text::lemma_replaced_without_occurrence(after, token, path);
    }
}

/// What the models of requests, replies and setups hold: the same, with texts as their characters.
pub proof fn lemma_models(setup: Setup, place: Place, variable: Variable, text: String, yes: bool)
    ensures
        setup@.step == setup.step,
        setup@.dir == setup.dir@,
        setup@.patched == setup.patched@,
        Request::AppDir@ == RequestModel::AppDir,
        Request::Exists(place)@ == RequestModel::Exists(place),
        Request::Read(place)@ == RequestModel::Read(place),
        Request::Write(place, text)@ == RequestModel::Write(place, text@),
        Request::SetVar(variable, place)@ == RequestModel::SetVar(variable, place),
        Request::Nothing@ == RequestModel::Nothing,
        Reply::AppDir(None)@ == ReplyModel::AppDir(None),
        Reply::AppDir(Some(text))@ == ReplyModel::AppDir(Some(text@)),
        Reply::Exists(yes)@ == ReplyModel::Exists(yes),
        Reply::Text(None)@ == ReplyModel::Text(None),
        Reply::Text(Some(text))@ == ReplyModel::Text(Some(text@)),
        Reply::Written(yes)@ == ReplyModel::Written(yes),
        Reply::VarSet@ == ReplyModel::VarSet,
{
}

/// Everything outside the program that the setup can learn of.
pub struct Installation {
    /// The application directory, where it is known.
    pub app_dir: Option<Seq<char>>,
    /// Which places exist.
    pub present: spec_fn(Place) -> bool,
    /// The text of the shipped loader cache, where it can be read.
    pub cache_text: Option<Seq<char>>,
    /// Whether the rewritten loader cache can be written.
    pub writable: bool,
}

impl Installation {
    /// What is answered to a request here.
    pub open spec fn answer(self, request: RequestModel) -> ReplyModel {
        match request {
            RequestModel::AppDir => ReplyModel::AppDir(self.app_dir),
            RequestModel::Exists(place) => ReplyModel::Exists((self.present)(place)),
            RequestModel::Read(_) => ReplyModel::Text(self.cache_text),
            RequestModel::Write(_, _) => ReplyModel::Written(self.writable),
            RequestModel::SetVar(_, _) => ReplyModel::VarSet,
            RequestModel::Nothing => ReplyModel::VarSet,
        }
    }

    /// The setup once it was answered here `n` times, starting from `setup`.
    pub open spec fn setup_after(self, setup: SetupModel, n: nat) -> SetupModel
        decreases n,
    {
        if n == 0 {
            setup
        } else {
            self.setup_after(setup.after(self.answer(setup.request())), (n - 1) as nat)
        }
    }

    /// The requests among the first `n` that change something outside, starting from `setup`.
    pub open spec fn effects(self, setup: SetupModel, n: nat) -> Seq<RequestModel>
        decreases n,
    {
        if n == 0 {
            seq![]
        } else {
            let request = setup.request();
            when(request is Write || request is SetVar, request) + self.effects(
                setup.after(self.answer(request)),
                (n - 1) as nat,
            )
        }
    }

    /// The rewritten loader cache, where there is one to write.
    pub open spec fn patched(self) -> Option<Seq<char>> {
        match (self.app_dir, self.cache_text) {
            (Some(dir), Some(contents)) => patched_cache(contents, dir),
            _ => None,
        }
    }

    /// What the setup is to change outside, in order. Nothing happens where the application
    /// directory is unknown, and every variable is left alone where its place is missing. The
    /// pixbuf loaders are taken from the rewritten cache where it could be written, and otherwise
    /// from the shipped one.
    pub open spec fn changes(self) -> Seq<RequestModel> {
        if self.app_dir is None {
            seq![]
        } else {
            when(
                (self.present)(Place::CompiledSchemas),
                RequestModel::SetVar(Variable::SchemaDir, Place::Schemas),
            ) + when(
                (self.present)(Place::Icons),
                RequestModel::SetVar(Variable::DataDirs, Place::Share),
            ) + when(
                (self.present)(Place::Plugins),
                RequestModel::SetVar(Variable::PluginPath, Place::Plugins),
            ) + self.cache_changes()
        }
    }

    /// The part of the changes that is about the pixbuf loaders.
    pub open spec fn cache_changes(self) -> Seq<RequestModel> {
        if !(self.present)(Place::LoaderCache) {
            seq![]
        } else {
            match self.patched() {
                Some(text) => seq![
                    RequestModel::Write(Place::PatchedCache, text),
                    RequestModel::SetVar(
                        Variable::PixbufModuleFile,
                        if self.writable {
                            Place::PatchedCache
                        } else {
                            Place::LoaderCache
                        },
                    ),
                ],
                None => seq![RequestModel::SetVar(Variable::PixbufModuleFile, Place::LoaderCache)],
            }
        }
    }
}

/// The request alone, or nothing.
pub open spec fn when(wanted: bool, request: RequestModel) -> Seq<RequestModel> {
    if wanted {
        seq![request]
    } else {
        seq![]
    }
}

/// A finished setup changes nothing more.
proof fn lemma_finished(here: Installation, setup: SetupModel, n: nat)
    requires
        setup.step == Step::Finished,
    ensures
        here.effects(setup, n) == Seq::<RequestModel>::empty(),
        here.setup_after(setup, n).step == Step::Finished,
    decreases n,
{
    if n > 0 {
        lemma_finished(here, setup, (n - 1) as nat);
    }
}

proof fn lemma_from_set_module(here: Installation, setup: SetupModel, n: nat)
    requires
        setup.step == Step::SetPatched || setup.step == Step::SetShipped,
        n >= 1,
    ensures
        here.effects(setup, n) == seq![setup.request()],
        here.setup_after(setup, n).step == Step::Finished,
{
    let next = setup.after(here.answer(setup.request()));
    lemma_finished(here, next, (n - 1) as nat);
}

proof fn lemma_from_cache(here: Installation, setup: SetupModel, n: nat)
    requires
        here.app_dir == Some(setup.dir),
        setup.step == Step::CheckCache,
        n >= 4,
    ensures
        here.effects(setup, n) == here.cache_changes(),
        here.setup_after(setup, n).step == Step::Finished,
{
    reveal_with_fuel(Installation::setup_after, 4);
    let read = setup.after(here.answer(setup.request()));
    if (here.present)(Place::LoaderCache) {
        let patched = read.after(here.answer(read.request()));
        if patched.step == Step::WriteCache {
            let written = patched.after(here.answer(patched.request()));
            lemma_from_set_module(here, written, (n - 3) as nat);
            assert(here.effects(patched, (n - 2) as nat) =~= seq![patched.request()]
                + seq![written.request()]);
        } else {
            lemma_from_set_module(here, patched, (n - 2) as nat);
        }
        assert(here.effects(read, (n - 1) as nat) =~= here.effects(patched, (n - 2) as nat));
    } else {
        lemma_finished(here, read, (n - 1) as nat);
    }
}

proof fn lemma_from_plugins(here: Installation, setup: SetupModel, n: nat)
    requires
        here.app_dir == Some(setup.dir),
        setup.step == Step::CheckPlugins,
        n >= 6,
    ensures
        here.effects(setup, n) == when(
            (here.present)(Place::Plugins),
            RequestModel::SetVar(Variable::PluginPath, Place::Plugins),
        ) + here.cache_changes(),
        here.setup_after(setup, n).step == Step::Finished,
{
    reveal_with_fuel(Installation::setup_after, 4);
    let next = setup.after(here.answer(setup.request()));
    if (here.present)(Place::Plugins) {
        let cache = next.after(here.answer(next.request()));
        lemma_from_cache(here, cache, (n - 2) as nat);
    } else {
        lemma_from_cache(here, next, (n - 1) as nat);
    }
    assert(here.effects(setup, n) =~= here.effects(next, (n - 1) as nat));
    assert(here.effects(setup, n) =~= when(
        (here.present)(Place::Plugins),
        RequestModel::SetVar(Variable::PluginPath, Place::Plugins),
    ) + here.cache_changes());
}

proof fn lemma_from_icons(here: Installation, setup: SetupModel, n: nat)
    requires
        here.app_dir == Some(setup.dir),
        setup.step == Step::CheckIcons,
        n >= 8,
    ensures
        here.effects(setup, n) == when(
            (here.present)(Place::Icons),
            RequestModel::SetVar(Variable::DataDirs, Place::Share),
        ) + when(
            (here.present)(Place::Plugins),
            RequestModel::SetVar(Variable::PluginPath, Place::Plugins),
        ) + here.cache_changes(),
        here.setup_after(setup, n).step == Step::Finished,
{
    reveal_with_fuel(Installation::setup_after, 4);
    let next = setup.after(here.answer(setup.request()));
    if (here.present)(Place::Icons) {
        let plugins = next.after(here.answer(next.request()));
        lemma_from_plugins(here, plugins, (n - 2) as nat);
        assert(here.effects(next, (n - 1) as nat) =~= seq![next.request()] + here.effects(
            plugins,
            (n - 2) as nat,
        ));
    } else {
        lemma_from_plugins(here, next, (n - 1) as nat);
    }
    assert(here.effects(setup, n) =~= when(
        (here.present)(Place::Icons),
        RequestModel::SetVar(Variable::DataDirs, Place::Share),
    ) + when(
        (here.present)(Place::Plugins),
        RequestModel::SetVar(Variable::PluginPath, Place::Plugins),
    ) + here.cache_changes());
}

/// Answered truthfully, the setup is finished after eleven answers at the latest, and by then has
/// changed exactly what it is to change, in order.
pub proof fn lemma_setup_makes_its_changes(here: Installation, n: nat)
    requires
        n >= 11,
    ensures
        here.setup_after(SetupModel::start(), n).step == Step::Finished,
        here.effects(SetupModel::start(), n) == here.changes(),
{
    reveal_with_fuel(Installation::setup_after, 4);
    let start = SetupModel::start();
    let first = start.after(here.answer(start.request()));
    if here.app_dir is None {
        lemma_finished(here, first, (n - 1) as nat);
    } else {
        let next = first.after(here.answer(first.request()));
        if (here.present)(Place::CompiledSchemas) {
            let icons = next.after(here.answer(next.request()));
            lemma_from_icons(here, icons, (n - 3) as nat);
            assert(here.effects(next, (n - 2) as nat) =~= seq![next.request()] + here.effects(
                icons,
                (n - 3) as nat,
            ));
        } else {
            lemma_from_icons(here, next, (n - 2) as nat);
        }
    }
    assert(here.effects(start, n) =~= here.effects(first, (n - 1) as nat));
}

/// The reply is of the kind that the request asks for.
pub open spec fn answers(request: RequestModel, reply: ReplyModel) -> bool {
    match request {
        RequestModel::AppDir => reply is AppDir,
        RequestModel::Exists(_) => reply is Exists,
        RequestModel::Read(_) => reply is Text,
        RequestModel::Write(_, _) => reply is Written,
        RequestModel::SetVar(_, _) => reply is VarSet,
        RequestModel::Nothing => false,
    }
}

/// How many answers the setup still takes at most.
pub open spec fn answers_left(step: Step) -> nat {
    match step {
        Step::FindAppDir => 11,
        Step::CheckSchemas => 10,
        Step::SetSchemas => 9,
        Step::CheckIcons => 8,
        Step::SetDataDirs => 7,
        Step::CheckPlugins => 6,
        Step::SetPlugins => 5,
        Step::CheckCache => 4,
        Step::ReadCache => 3,
        Step::WriteCache => 2,
        Step::SetPatched => 1,
        Step::SetShipped => 1,
        Step::Finished => 0,
    }
}

/// Whatever is answered, an answer brings the setup closer to its end, and anything else leaves
/// it as it is.
pub proof fn lemma_answers_advance(setup: SetupModel, reply: ReplyModel)
    ensures
        answers(setup.request(), reply) ==> answers_left(setup.after(reply).step) < answers_left(
            setup.step,
        ),
        !answers(setup.request(), reply) ==> setup.after(reply) == setup,
{
}

/// `run` is a course of the setup that is answered by `replies`, truthfully for `here`.
spec fn is_run(run: Seq<SetupModel>, replies: Seq<ReplyModel>, here: Installation) -> bool {
    &&& run.len() == replies.len() + 1
    &&& forall|i: int|
        #![trigger replies[i]]
        0 <= i < replies.len() ==> run[i + 1] == run[i].after(replies[i]) && (match run[i].request() {
            RequestModel::Nothing => true,
            request => replies[i] == here.answer(request),
        })
}

proof fn lemma_concat_contains(a: Seq<RequestModel>, b: Seq<RequestModel>, x: RequestModel)
    ensures
        (a + b).contains(x) <==> a.contains(x) || b.contains(x),
{
    if a.contains(x) {
        let k = choose|k: int| 0 <= k < a.len() && a[k] == x;
        assert((a + b)[k] == x);
    }
    if b.contains(x) {
        let k = choose|k: int| 0 <= k < b.len() && b[k] == x;
        assert((a + b)[a.len() + k] == x);
    }
}

proof fn lemma_when_contains(wanted: bool, request: RequestModel, x: RequestModel)
    ensures
        wanted && x == request <==> when(wanted, request).contains(x),
{
    if wanted {
        assert(when(wanted, request)[0] == request);
    }
}

/// The changes of a run from `k` on are those that it asks for from there on.
proof fn lemma_run_effects(
    run: Seq<SetupModel>,
    replies: Seq<ReplyModel>,
    here: Installation,
    k: int,
    x: RequestModel,
)
    requires
        is_run(run, replies, here),
        0 <= k <= replies.len(),
        x is Write || x is SetVar,
    ensures
        here.effects(run[k], (replies.len() - k) as nat).contains(x) <==> exists|i: int|
            k <= i < replies.len() && (#[trigger] run[i]).request() == x,
        here.setup_after(run[k], (replies.len() - k) as nat) == run[replies.len() as int],
    decreases replies.len() - k,
{
    if k < replies.len() {
        let reply = replies[k];
        let request = run[k].request();
        assert(run[k + 1] == run[k].after(here.answer(request)));
        lemma_run_effects(run, replies, here, k + 1, x);
        let wanted = request is Write || request is SetVar;
        let rest = here.effects(run[k + 1], (replies.len() - k - 1) as nat);
        lemma_concat_contains(when(wanted, request), rest, x);
        lemma_when_contains(wanted, request, x);
        if exists|i: int| k <= i < replies.len() && (#[trigger] run[i]).request() == x {
            let i = choose|i: int| k <= i < replies.len() && (#[trigger] run[i]).request() == x;
            if i > k {
                assert(k + 1 <= i < replies.len() && run[i].request() == x);
            }
        }
    }
}

/// Which changes a run asks for, said of each change by itself.
proof fn lemma_changes_contain(here: Installation, x: RequestModel)
    ensures
        here.changes().contains(x) <==> here.app_dir is Some && {
            ||| (here.present)(Place::CompiledSchemas) && x == RequestModel::SetVar(
                Variable::SchemaDir,
                Place::Schemas,
            )
            ||| (here.present)(Place::Icons) && x == RequestModel::SetVar(
                Variable::DataDirs,
                Place::Share,
            )
            ||| (here.present)(Place::Plugins) && x == RequestModel::SetVar(
                Variable::PluginPath,
                Place::Plugins,
            )
            ||| here.cache_changes().contains(x)
        },
{
    let schemas = when(
        (here.present)(Place::CompiledSchemas),
        RequestModel::SetVar(Variable::SchemaDir, Place::Schemas),
    );
    let icons = when(
        (here.present)(Place::Icons),
        RequestModel::SetVar(Variable::DataDirs, Place::Share),
    );
    let plugins = when(
        (here.present)(Place::Plugins),
        RequestModel::SetVar(Variable::PluginPath, Place::Plugins),
    );
    lemma_when_contains(
        (here.present)(Place::CompiledSchemas),
        RequestModel::SetVar(Variable::SchemaDir, Place::Schemas),
        x,
    );
    lemma_when_contains(
        (here.present)(Place::Icons),
        RequestModel::SetVar(Variable::DataDirs, Place::Share),
        x,
    );
    lemma_when_contains(
        (here.present)(Place::Plugins),
        RequestModel::SetVar(Variable::PluginPath, Place::Plugins),
        x,
    );
    lemma_concat_contains(schemas, icons, x);
    lemma_concat_contains(schemas + icons, plugins, x);
    lemma_concat_contains(schemas + icons + plugins, here.cache_changes(), x);
}

proof fn lemma_cache_changes_contain(here: Installation, x: RequestModel)
    requires
        here.app_dir is Some,
    ensures
        here.cache_changes().contains(x) <==> (here.present)(Place::LoaderCache) && {
            ||| here.patched() matches Some(text) && x == RequestModel::Write(
                Place::PatchedCache,
                text,
            )
            ||| here.patched() is Some && here.writable && x == RequestModel::SetVar(
                Variable::PixbufModuleFile,
                Place::PatchedCache,
            )
            ||| !(here.patched() is Some && here.writable) && x == RequestModel::SetVar(
                Variable::PixbufModuleFile,
                Place::LoaderCache,
            )
        },
{
    let changes = here.cache_changes();
    if (here.present)(Place::LoaderCache) {
        assert(changes.contains(changes[0]));
        if here.patched() is Some {
            assert(changes.contains(changes[1]));
        }
    }
}

/// However a run of the setup goes, as long as it is answered truthfully: it ends; each variable is
/// pointed at its place exactly where the application directory is known and what is looked for
/// exists; the rewritten cache is written exactly where the shipped one exists, can be read and
/// holds the token; the loaders are taken from it exactly where it could be written, and from the
/// shipped one otherwise; and nothing else is changed.
pub proof fn lemma_every_run(
    run: Seq<SetupModel>,
    replies: Seq<ReplyModel>,
    app_dir: Option<Seq<char>>,
    present: spec_fn(Place) -> bool,
    cache_text: Option<Seq<char>>,
    writable: bool,
    x: RequestModel,
)
    requires
        replies.len() >= 11,
        run.len() == replies.len() + 1,
        run[0].step is FindAppDir,
        run[0].dir.len() == 0,
        run[0].patched.len() == 0,
        forall|i: int|
            #![trigger replies[i]]
            0 <= i < replies.len() ==> run[i + 1] == run[i].after(replies[i]) && (
            match run[i].request() {
                RequestModel::AppDir => replies[i] == ReplyModel::AppDir(app_dir),
                RequestModel::Exists(place) => replies[i] == ReplyModel::Exists(present(place)),
                RequestModel::Read(_) => replies[i] == ReplyModel::Text(cache_text),
                RequestModel::Write(_, _) => replies[i] == ReplyModel::Written(writable),
                RequestModel::SetVar(_, _) => replies[i] is VarSet,
                RequestModel::Nothing => true,
            }),
        x is Write || x is SetVar,
    ensures
        run.last().step is Finished,
        (exists|i: int| 0 <= i < run.len() && (#[trigger] run[i]).request() == x) <==> app_dir
            is Some && {
            let rewritten = cache_text is Some && (exists|at: int|
                0 <= at && at + 8 <= cache_text->Some_0.len()
                    && #[trigger] cache_text->Some_0.subrange(at, at + 8) == "@APPDIR@"@);
            ||| present(Place::CompiledSchemas) && x == RequestModel::SetVar(
                Variable::SchemaDir,
                Place::Schemas,
            )
            ||| present(Place::Icons) && x == RequestModel::SetVar(
                Variable::DataDirs,
                Place::Share,
            )
            ||| present(Place::Plugins) && x == RequestModel::SetVar(
                Variable::PluginPath,
                Place::Plugins,
            )
            ||| present(Place::LoaderCache) && rewritten && x == RequestModel::Write(
                Place::PatchedCache,
                crate::text::replaced(
                    cache_text->Some_0,
                    "@APPDIR@"@,
                    forward_slashes(app_dir->Some_0),
                ),
            )
            ||| present(Place::LoaderCache) && rewritten && writable && x == RequestModel::SetVar(
                Variable::PixbufModuleFile,
                Place::PatchedCache,
            )
            ||| present(Place::LoaderCache) && !(rewritten && writable) && x
                == RequestModel::SetVar(Variable::PixbufModuleFile, Place::LoaderCache)
        },
{
    let here = Installation { app_dir, present, cache_text, writable };
    let n = replies.len();
    assert(run[0] =~= SetupModel::start());
    lemma_run_effects(run, replies, here, 0, x);
    lemma_setup_makes_its_changes(here, n);
    lemma_changes_contain(here, x);
    if app_dir is Some {
        lemma_cache_changes_contain(here, x);
    }
    if cache_text is Some && app_dir is Some {
        lemma_patched_where_token_occurs(cache_text->Some_0, app_dir->Some_0);
    }
    assert(run[n as int].request() is Nothing);
    if exists|i: int| 0 <= i < run.len() && (#[trigger] run[i]).request() == x {
        let i = choose|i: int| 0 <= i < run.len() && (#[trigger] run[i]).request() == x;
        assert(i < n);
    }
    if exists|i: int| 0 <= i < n && (#[trigger] run[i]).request() == x {
        let i = choose|i: int| 0 <= i < n && (#[trigger] run[i]).request() == x;
        assert(0 <= i < run.len() && run[i].request() == x);
    }
}

/// A truthfully answered run comes to no step twice before its end, so it makes no change twice.
pub proof fn lemma_no_step_twice(
    run: Seq<SetupModel>,
    replies: Seq<ReplyModel>,
    i: int,
    j: int,
)
    requires
        run.len() == replies.len() + 1,
        forall|k: int|
            #![trigger replies[k]]
            0 <= k < replies.len() ==> run[k + 1] == run[k].after(replies[k]) && (
            match run[k].request() {
                RequestModel::AppDir => replies[k] is AppDir,
                RequestModel::Exists(_) => replies[k] is Exists,
                RequestModel::Read(_) => replies[k] is Text,
                RequestModel::Write(_, _) => replies[k] is Written,
                RequestModel::SetVar(_, _) => replies[k] is VarSet,
                RequestModel::Nothing => true,
            }),
        0 <= i < j < run.len(),
        run[i].step == run[j].step,
    ensures
        run[i].step is Finished,
{
    lemma_run_advances(run, replies, i, j);
}

proof fn lemma_run_advances(run: Seq<SetupModel>, replies: Seq<ReplyModel>, i: int, j: int)
    requires
        run.len() == replies.len() + 1,
        forall|k: int|
            #![trigger replies[k]]
            0 <= k < replies.len() ==> run[k + 1] == run[k].after(replies[k]) && (
            answers(run[k].request(), replies[k]) || run[k].request() is Nothing),
        0 <= i < j < run.len(),
    ensures
        answers_left(run[j].step) < answers_left(run[i].step) || run[i].step is Finished,
        answers_left(run[j].step) <= answers_left(run[i].step),
    decreases j - i,
{
    let reply = replies[j - 1];
    assert(run[j - 1 + 1] == run[j - 1].after(reply));
    lemma_answers_advance(run[j - 1], reply);
    if i < j - 1 {
        lemma_run_advances(run, replies, i, j - 1);
    }
}

/// A loader cache that needs rewriting is rewritten at every token and nowhere else: the same
/// pieces stand around the tokens before and around the directory afterwards.
pub proof fn lemma_patch_keeps_the_rest(contents: Seq<char>, dir: Seq<char>)
    requires
        patched_cache(contents, dir) is Some,
    ensures
        contents == crate::text::joined(
            crate::text::pieces(contents, APPDIR_TOKEN@),
            APPDIR_TOKEN@,
        ),
        patched_cache(contents, dir) == Some(
            crate::text::joined(
                crate::text::pieces(contents, APPDIR_TOKEN@),
                forward_slashes(dir),
            ),
        ),
        forall|k: int|
            0 <= k < crate::text::pieces(contents, APPDIR_TOKEN@).len() ==> !crate::text::contains(
                #[trigger] crate::text::pieces(contents, APPDIR_TOKEN@)[k],
                APPDIR_TOKEN@,
            ),
{
    reveal_strlit("@APPDIR@");
    crate::text::lemma_pieces_rebuild_text(contents, APPDIR_TOKEN@);
    crate::text::lemma_replaced_joins_pieces(contents, APPDIR_TOKEN@, forward_slashes(dir));
    crate::text::lemma_pieces_are_free(contents, APPDIR_TOKEN@);
}

/// Unless the directory can make up a token of its own, the rewritten cache holds none any more and
/// needs no second rewriting.
pub proof fn lemma_patch_leaves_no_token(contents: Seq<char>, dir: Seq<char>, other: Seq<char>)
    requires
        patched_cache(contents, dir) is Some,
        !crate::text::can_arise(APPDIR_TOKEN@, forward_slashes(dir)),
    ensures
        !crate::text::contains(patched_cache(contents, dir)->Some_0, APPDIR_TOKEN@),
        patched_cache(patched_cache(contents, dir)->Some_0, other) is None,
{
    reveal_strlit("@APPDIR@");
    crate::text::lemma_replaced_leaves_none(contents, APPDIR_TOKEN@, forward_slashes(dir));
}

/// A directory with a separator in its path and no `@` makes up no token.
pub proof fn lemma_plain_paths_make_no_token(dir: Seq<char>)
    requires
        dir.contains('/') || dir.contains('\\'),
        !dir.contains('@'),
    ensures
        !crate::text::can_arise(APPDIR_TOKEN@, forward_slashes(dir)),
{
    reveal_strlit("@APPDIR@");
    let token = APPDIR_TOKEN@;
    let path = forward_slashes(dir);
    let slash = if dir.contains('/') {
        choose|k: int| 0 <= k < dir.len() && dir[k] == '/'
    } else {
        choose|k: int| 0 <= k < dir.len() && dir[k] == '\\'
    };
    assert(forall|k: int| 0 <= k < path.len() ==> path[k] != '@');
    if crate::text::contains(path, token) {
        let at = choose|at: int| crate::text::occurs_at(path, token, at);
        assert(path.subrange(at, at + token.len())[0] == '@');
    }
    assert forall|k: int| !crate::text::ends_as_start(token, path, k) by {
        if crate::text::ends_as_start(token, path, k) {
            assert(path.skip(path.len() - k)[0] == path[path.len() - k]);
        }
    }
    assert forall|k: int| !crate::text::starts_as_end(token, path, k) by {
        if crate::text::starts_as_end(token, path, k) {
            assert(path.take(k)[k - 1] == path[k - 1]);
        }
    }
    assert forall|at: int| !crate::text::lies_inside(token, path, at) by {
        if crate::text::lies_inside(token, path, at) {
            assert(token.subrange(at, at + path.len())[slash] == token[at + slash]);
        }
    }
}

/// The directory holding the gettext catalogues, when the portable package ships them next to
/// the executable. `found` says whether [`Place::Locale`] is a directory, and is `None` where the
/// application directory is unknown.
pub fn locale_dir(found: Option<bool>) -> (dir: Option<Place>)
    ensures
        dir == (if found == Some(true) {
            Some(Place::Locale)
        } else {
            None
        }),
{
    match found {
        Some(true) => Some(Place::Locale),
        _ => None,
    }
}

} // verus!
