use vstd::prelude::*;

verus! {

/// The folder that stands for a root that was never set. Nothing is to be
/// found under it.
pub const DEFAULT_FOLDER: &'static str = "hamgraph_default_invalid_path";

/// The two roots of the files of an application, as contracts see them.
pub struct PathsState {
    /// Where the application keeps what it writes; none until it is set or
    /// asked for.
    pub userdata: Option<Seq<char>>,
    /// Where the application was installed; none until it is set or asked for.
    pub install: Option<Seq<char>>,
    /// Whether `set_userdata_path_once` has been called.
    pub userdata_once: bool,
    /// Whether `set_install_path_once` has been called.
    pub install_once: bool,
}

/// The two roots of the files of an application. Each is set once, at most,
/// and never changes after it was set or asked for; one that is asked for
/// before it was set becomes a folder under the local data folder of the
/// user.
pub struct InfraPaths {
    userdata: Option<String>,
    install: Option<String>,
    userdata_once: bool,
    install_once: bool,
}

impl View for InfraPaths {
    type V = PathsState;

    closed spec fn view(&self) -> PathsState {
        PathsState {
            userdata: match self.userdata {
                Some(path) => Some(path@),
                None => None,
            },
            install: match self.install {
                Some(path) => Some(path@),
                None => None,
            },
            userdata_once: self.userdata_once,
            install_once: self.install_once,
        }
    }
}

/// The path `base` with `part` adjoined, as `Path::join` gives it.
pub uninterp spec fn joined(base: Seq<char>, part: Seq<char>) -> Seq<char>;

/// `Path::join`: the path `base` with `part` adjoined. Both are text, so the
/// result is text too; nothing is read from the disk.
#[verifier::external_body]
fn join_path(base: &str, part: &str) -> (path: String)
    ensures
        path@ == joined(base@, part@),
{
    std::path::Path::new(base).join(part).to_string_lossy().into_owned()
}

/// `dirs::data_local_dir`: the local data folder of the user, where the
/// platform names one. What it names may differ from call to call. A name
/// that is no text loses what is no text in it.
#[verifier::external_body]
fn local_data_dir() -> Option<String> {
    match dirs::data_local_dir() {
        Some(path) => Some(path.to_string_lossy().into_owned()),
        None => None,
    }
}

/// The root that stands for one that was never set: the default folder
/// under `local`, or under the current folder where there is no `local`.
pub open spec fn default_root_of(local: Option<Seq<char>>) -> Seq<char> {
    match local {
        Some(folder) => joined(folder, DEFAULT_FOLDER@),
        None => joined("."@, DEFAULT_FOLDER@),
    }
}

/// The root that stands for one that was never set, from the local data
/// folder of the user.
pub fn default_root(local: Option<String>) -> (root: String)
    ensures
        root@ == default_root_of(
            match local {
                Some(folder) => Some(folder@),
                None => None,
            },
        ),
{
    match local {
        Some(folder) => join_path(folder.as_str(), DEFAULT_FOLDER),
        None => join_path(".", DEFAULT_FOLDER),
    }
}

impl InfraPaths {
    /// Roots that were neither set nor asked for.
    pub fn new() -> (paths: InfraPaths)
        ensures
            paths@ == (PathsState {
                userdata: None,
                install: None,
                userdata_once: false,
                install_once: false,
            }),
    {
        InfraPaths { userdata: None, install: None, userdata_once: false, install_once: false }
    }
}

/// Sets the root of what the application writes. It can be set once, and
/// not after it was asked for.
pub fn set_userdata_path(paths: &mut InfraPaths, path: &str)
    requires
        old(paths)@.userdata is None,
    ensures
        final(paths)@ == (PathsState { userdata: Some(path@), ..old(paths)@ }),
{
    paths.userdata = Some(path.to_owned());
}

/// Sets the root of what the application writes, the first time it is
/// called; later calls change nothing.
pub fn set_userdata_path_once(paths: &mut InfraPaths, path: &str)
    requires
        !old(paths)@.userdata_once ==> old(paths)@.userdata is None,
    ensures
        final(paths)@ == if old(paths)@.userdata_once {
            old(paths)@
        } else {
            PathsState { userdata: Some(path@), userdata_once: true, ..old(paths)@ }
        },
{
    if !paths.userdata_once {
        set_userdata_path(paths, path);
        paths.userdata_once = true;
    }
}

/// The root of what the application writes. Where it was not set it becomes,
/// from now on, the default folder under the local data folder of the user.
pub fn get_userdata_path(paths: &mut InfraPaths) -> (root: String)
    ensures
        final(paths)@ == (PathsState { userdata: Some(root@), ..old(paths)@ }),
        old(paths)@.userdata is Some ==> old(paths)@.userdata == Some(root@),
        old(paths)@.userdata is None ==> exists|local: Option<Seq<char>>|
            root@ == #[trigger] default_root_of(local),
{
    match &paths.userdata {
        Some(path) => path.clone(),
        None => {
            let root = default_root(local_data_dir());
            paths.userdata = Some(root.clone());
            root
        },
    }
}

/// Sets the root of what was installed with the application. It can be set
/// once, and not after it was asked for.
pub fn set_install_path(paths: &mut InfraPaths, path: &str)
    requires
        old(paths)@.install is None,
    ensures
        final(paths)@ == (PathsState { install: Some(path@), ..old(paths)@ }),
{
    paths.install = Some(path.to_owned());
}

/// Sets the root of what was installed with the application, the first time
/// it is called; later calls change nothing.
pub fn set_install_path_once(paths: &mut InfraPaths, path: &str)
    requires
        !old(paths)@.install_once ==> old(paths)@.install is None,
    ensures
        final(paths)@ == if old(paths)@.install_once {
            old(paths)@
        } else {
            PathsState { install: Some(path@), install_once: true, ..old(paths)@ }
        },
{
    if !paths.install_once {
        set_install_path(paths, path);
        paths.install_once = true;
    }
}

/// The root of what was installed with the application. Where it was not
/// set it becomes, from now on, the default folder under the local data
/// folder of the user.
pub fn get_install_path(paths: &mut InfraPaths) -> (root: String)
    ensures
        final(paths)@ == (PathsState { install: Some(root@), ..old(paths)@ }),
        old(paths)@.install is Some ==> old(paths)@.install == Some(root@),
        old(paths)@.install is None ==> exists|local: Option<Seq<char>>|
            root@ == #[trigger] default_root_of(local),
{
    match &paths.install {
        Some(path) => path.clone(),
        None => {
            let root = default_root(local_data_dir());
            paths.install = Some(root.clone());
            root
        },
    }
}

/// The folder `part` under the install root.
fn install_folder(paths: &mut InfraPaths, part: &str) -> (path: String)
    ensures
        final(paths)@.install is Some,
        final(paths)@ == (PathsState { install: final(paths)@.install, ..old(paths)@ }),
        old(paths)@.install is Some ==> final(paths)@ == old(paths)@,
        old(paths)@.install is None ==> exists|local: Option<Seq<char>>|
            final(paths)@.install == Some(#[trigger] default_root_of(local)),
        path@ == joined(final(paths)@.install->Some_0, part@),
{
    let root = get_install_path(paths);
    join_path(root.as_str(), part)
}

/// The folder of the configuration files: `conf` under the install root.
pub fn get_conf_path(paths: &mut InfraPaths) -> (path: String)
    ensures
        final(paths)@.install is Some,
        final(paths)@ == (PathsState { install: final(paths)@.install, ..old(paths)@ }),
        old(paths)@.install is Some ==> final(paths)@ == old(paths)@,
        old(paths)@.install is None ==> exists|local: Option<Seq<char>>|
            final(paths)@.install == Some(#[trigger] default_root_of(local)),
        path@ == joined(final(paths)@.install->Some_0, "conf"@),
{
    install_folder(paths, "conf")
}

/// The folder of the images: `img` under the install root.
pub fn get_img_path(paths: &mut InfraPaths) -> (path: String)
    ensures
        final(paths)@.install is Some,
        final(paths)@ == (PathsState { install: final(paths)@.install, ..old(paths)@ }),
        old(paths)@.install is Some ==> final(paths)@ == old(paths)@,
        old(paths)@.install is None ==> exists|local: Option<Seq<char>>|
            final(paths)@.install == Some(#[trigger] default_root_of(local)),
        path@ == joined(final(paths)@.install->Some_0, "img"@),
{
    install_folder(paths, "img")
}

/// The folder of the music: `music` under the install root.
pub fn get_music_path(paths: &mut InfraPaths) -> (path: String)
    ensures
        final(paths)@.install is Some,
        final(paths)@ == (PathsState { install: final(paths)@.install, ..old(paths)@ }),
        old(paths)@.install is Some ==> final(paths)@ == old(paths)@,
        old(paths)@.install is None ==> exists|local: Option<Seq<char>>|
            final(paths)@.install == Some(#[trigger] default_root_of(local)),
        path@ == joined(final(paths)@.install->Some_0, "music"@),
{
    install_folder(paths, "music")
}

/// The folder of the sounds: `sfx` under the install root.
pub fn get_sfx_path(paths: &mut InfraPaths) -> (path: String)
    ensures
        final(paths)@.install is Some,
        final(paths)@ == (PathsState { install: final(paths)@.install, ..old(paths)@ }),
        old(paths)@.install is Some ==> final(paths)@ == old(paths)@,
        old(paths)@.install is None ==> exists|local: Option<Seq<char>>|
            final(paths)@.install == Some(#[trigger] default_root_of(local)),
        path@ == joined(final(paths)@.install->Some_0, "sfx"@),
{
    install_folder(paths, "sfx")
}

/// The folder of the fonts: `font` under the install root.
pub fn get_ttf_path(paths: &mut InfraPaths) -> (path: String)
    ensures
        final(paths)@.install is Some,
        final(paths)@ == (PathsState { install: final(paths)@.install, ..old(paths)@ }),
        old(paths)@.install is Some ==> final(paths)@ == old(paths)@,
        old(paths)@.install is None ==> exists|local: Option<Seq<char>>|
            final(paths)@.install == Some(#[trigger] default_root_of(local)),
        path@ == joined(final(paths)@.install->Some_0, "font"@),
{
    install_folder(paths, "font")
}

/// The folder of the logs: `log` under the root of what the application
/// writes.
pub fn get_logger_path(paths: &mut InfraPaths) -> (path: String)
    ensures
        final(paths)@.userdata is Some,
        final(paths)@ == (PathsState { userdata: final(paths)@.userdata, ..old(paths)@ }),
        old(paths)@.userdata is Some ==> final(paths)@ == old(paths)@,
        old(paths)@.userdata is None ==> exists|local: Option<Seq<char>>|
            final(paths)@.userdata == Some(#[trigger] default_root_of(local)),
        path@ == joined(final(paths)@.userdata->Some_0, "log"@),
{
    let root = get_userdata_path(paths);
    join_path(root.as_str(), "log")
}

/// Sets the install root to the data of the tests, `test/data` under the
/// folder of the package, the first time an install root is set this way;
/// later calls change nothing.
pub fn setup_test_folder(paths: &mut InfraPaths, manifest_dir: &str)
    requires
        !old(paths)@.install_once ==> old(paths)@.install is None,
    ensures
        final(paths)@ == if old(paths)@.install_once {
            old(paths)@
        } else {
            PathsState {
                install: Some(joined(joined(manifest_dir@, "test"@), "data"@)),
                install_once: true,
                ..old(paths)@
            }
        },
{
    let test = join_path(manifest_dir, "test");
    let data = join_path(test.as_str(), "data");
    set_install_path_once(paths, data.as_str());
}

} // verus!
