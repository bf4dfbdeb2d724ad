use tsukimi::platform::{
    locale_dir, patch_loader_cache, prepare_environment, Base, Place, Reply, Request, Setup, Step,
    Variable, APPDIR_TOKEN,
};

struct Machine {
    app_dir: Option<String>,
    present: Vec<Place>,
    cache: Option<String>,
    writable: bool,
}

impl Machine {
    fn complete() -> Machine {
        Machine {
            app_dir: Some("C:\\Program Files\\tsukimi".to_string()),
            present: vec![Place::CompiledSchemas, Place::Icons, Place::Plugins, Place::LoaderCache],
            cache: Some("\"@APPDIR@/lib/png.dll\"\n\"@APPDIR@/lib/svg.dll\"\n".to_string()),
            writable: true,
        }
    }

    /// The changes that the setup makes here, one per line.
    fn set_up(&self) -> Vec<String> {
        let mut changes = vec![];
        let mut setup = Setup::start();
        for _ in 0..12 {
            let reply = match setup.request() {
                Request::AppDir => Reply::AppDir(self.app_dir.clone()),
                Request::Exists(place) => Reply::Exists(self.present.contains(&place)),
                Request::Read(place) => {
                    assert_eq!(place, Place::LoaderCache);
                    Reply::Text(self.cache.clone())
                }
                Request::Write(place, text) => {
                    changes.push(format!("{place:?} <- {text}"));
                    Reply::Written(self.writable)
                }
                Request::SetVar(variable, place) => {
                    changes.push(format!("{} = {place:?}", variable.name()));
                    Reply::VarSet
                }
                Request::Nothing => return changes,
            };
            setup = prepare_environment(setup, reply);
        }
        panic!("the setup does not end");
    }
}

#[test]
fn a_complete_package_has_everything_set() {
    assert_eq!(
        Machine::complete().set_up(),
        vec![
            "GSETTINGS_SCHEMA_DIR = Schemas",
            "XDG_DATA_DIRS = Share",
            "GST_PLUGIN_PATH_1_0 = Plugins",
            "PatchedCache <- \"C:/Program Files/tsukimi/lib/png.dll\"\n\
             \"C:/Program Files/tsukimi/lib/svg.dll\"\n",
            "GDK_PIXBUF_MODULE_FILE = PatchedCache",
        ]
    );
}

#[test]
fn nothing_is_set_without_an_application_directory() {
    let machine = Machine { app_dir: None, ..Machine::complete() };
    assert!(machine.set_up().is_empty());
}

#[test]
fn every_step_is_skipped_where_its_directory_is_missing() {
    let machine = Machine { present: vec![], ..Machine::complete() };
    assert!(machine.set_up().is_empty());
    let machine = Machine { present: vec![Place::CompiledSchemas], ..Machine::complete() };
    assert_eq!(machine.set_up(), vec!["GSETTINGS_SCHEMA_DIR = Schemas"]);
    let machine = Machine { present: vec![Place::Icons], ..Machine::complete() };
    assert_eq!(machine.set_up(), vec!["XDG_DATA_DIRS = Share"]);
    let machine = Machine { present: vec![Place::Plugins], ..Machine::complete() };
    assert_eq!(machine.set_up(), vec!["GST_PLUGIN_PATH_1_0 = Plugins"]);
    // The directories alone do not count, only what is looked for in them.
    let machine = Machine { present: vec![Place::Schemas, Place::Share], ..Machine::complete() };
    assert!(machine.set_up().is_empty());
}

#[test]
fn the_shipped_cache_is_used_where_it_cannot_be_rewritten() {
    let shipped = vec!["GDK_PIXBUF_MODULE_FILE = LoaderCache".to_string()];
    let present = vec![Place::LoaderCache];
    let unreadable = Machine { present: present.clone(), cache: None, ..Machine::complete() };
    assert_eq!(unreadable.set_up(), shipped);
    let plain = Machine {
        present: present.clone(),
        cache: Some("\"/usr/lib/png.so\"".to_string()),
        ..Machine::complete()
    };
    assert_eq!(plain.set_up(), shipped);
    let read_only = Machine { present, writable: false, ..Machine::complete() };
    let changes = read_only.set_up();
    assert_eq!(changes.len(), 2);
    assert!(changes[0].starts_with("PatchedCache <- "));
    assert_eq!(changes[1], shipped[0]);
}

#[test]
fn a_reply_to_another_request_changes_nothing() {
    let setup = prepare_environment(Setup::start(), Reply::VarSet);
    assert_eq!(setup.step, Step::FindAppDir);
    let setup = prepare_environment(setup, Reply::AppDir(Some("/opt/tsukimi".to_string())));
    assert_eq!(setup.step, Step::CheckSchemas);
    let setup = prepare_environment(setup, Reply::Written(true));
    assert_eq!(setup.step, Step::CheckSchemas);
    assert_eq!(setup.dir, "/opt/tsukimi");
    let setup = prepare_environment(setup, Reply::Exists(false));
    assert_eq!(setup.step, Step::CheckIcons);
}

#[test]
fn the_cache_is_rewritten_at_every_token() {
    assert_eq!(APPDIR_TOKEN, "@APPDIR@");
    assert_eq!(
        patch_loader_cache("a @APPDIR@/b\n@APPDIR@", "D:\\x\\y").unwrap(),
        "a D:/x/y/b\nD:/x/y"
    );
    assert_eq!(patch_loader_cache("@APPDIR@", "/opt").unwrap(), "/opt");
    assert!(patch_loader_cache("no token, @APPDIR only", "/opt").is_none());
    assert!(patch_loader_cache("", "/opt").is_none());
}

#[test]
fn a_rewritten_cache_needs_no_second_rewriting() {
    let once = patch_loader_cache("@APP@APPDIR@DIR@ @APPDIR@@APPDIR@", "C:\\me@home\\x").unwrap();
    assert_eq!(once, "@APPC:/me@home/xDIR@ C:/me@home/xC:/me@home/x");
    assert!(patch_loader_cache(&once, "/elsewhere").is_none());
}

#[test]
fn a_token_can_arise_across_a_directory_that_fits_into_it() {
    assert_eq!(patch_loader_cache("@@APPDIR@@", "APPDIR").unwrap(), "@APPDIR@");
    assert_eq!(patch_loader_cache("@APPDIR@@", "/@APPDIR").unwrap(), "/@APPDIR@");
}

#[test]
fn places_lie_where_the_package_ships_them() {
    assert_eq!(Place::Schemas.parts(), vec!["share/glib-2.0/schemas"]);
    assert_eq!(Place::CompiledSchemas.parts(), vec!["share/glib-2.0/schemas", "gschemas.compiled"]);
    assert_eq!(Place::Share.parts(), vec!["share"]);
    assert_eq!(Place::Icons.parts(), vec!["share", "icons"]);
    assert_eq!(Place::Plugins.parts(), vec!["lib/gstreamer-1.0"]);
    assert_eq!(
        Place::LoaderCache.parts(),
        vec!["lib/gdk-pixbuf-2.0/2.10.0/loaders", "loaders.cache"]
    );
    assert_eq!(Place::PatchedCache.parts(), vec!["tsukimi-gdk-pixbuf-loaders.cache"]);
    assert_eq!(Place::Locale.parts(), vec!["share/locale"]);
    assert_eq!(Place::PatchedCache.base(), Base::TempDir);
    assert_eq!(Place::LoaderCache.base(), Base::AppDir);
    assert_eq!(Place::Locale.base(), Base::AppDir);
}

#[test]
fn variables_have_their_names() {
    assert_eq!(Variable::SchemaDir.name(), "GSETTINGS_SCHEMA_DIR");
    assert_eq!(Variable::DataDirs.name(), "XDG_DATA_DIRS");
    assert_eq!(Variable::PluginPath.name(), "GST_PLUGIN_PATH_1_0");
    assert_eq!(Variable::PixbufModuleFile.name(), "GDK_PIXBUF_MODULE_FILE");
}

#[test]
fn the_catalogues_are_used_where_they_are_shipped() {
    assert_eq!(locale_dir(Some(true)), Some(Place::Locale));
    assert_eq!(locale_dir(Some(false)), None);
    assert_eq!(locale_dir(None), None);
}
