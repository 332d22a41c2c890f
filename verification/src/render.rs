//! The renderers: one per entity of the blueprint, each turning its entity
//! into staged files and queued commands.
//!
//! SSH keys become one staged `tmpfiles.d` snippet with a line per key; the
//! package list becomes one queued command.  A renderer either succeeds or
//! leaves the accumulator as it found it.

use crate::blueprint::{
    key_views, Blueprint, Customizations, Package, PackageView, Packages, Sshkey, SshkeyView,
};
use crate::command::ExecuteCommand;
use crate::encoding::{base64_encode, base64_text, max_encodable_len};
use crate::rendered::Rendered;
use crate::source_root::{root_home, SourceRoot, SourceRootView};
use crate::staging::{is_clean, FileView};
use crate::text::str_eq;
use vstd::prelude::*;
use vstd::string::*;
use vstd::utf8::encode_utf8;

verus! {

/// The directory, relative to the target root, that holds `tmpfiles.d`
/// snippets shipped with the system.
pub const USR_TMPFILES: &'static str = "usr/lib/tmpfiles.d";

/// The name under which this program installs its artifacts.
pub const PROGRAM_NAME: &'static str = "osbuild-cfg";

/// The permission bits of the staged snippet: read and write for the owner.
pub const SSH_CONF_MODE: u32 = 0o600;

/// Why a blueprint could not be rendered.
#[derive(Debug, Clone, Copy, PartialEq, Eq)]
pub enum RenderError {
    /// An SSH key was given for a user other than `root`.
    NonRootSshUser,
}

/// The only user for whom keys are provisioned.
pub open spec fn supported_user() -> Seq<char> {
    "root"@
}

/// How a package is named to the package manager: the name alone, or name
/// and version joined by a hyphen.
pub open spec fn package_spec(package: PackageView) -> Seq<char> {
    match package.version {
        Some(version) => package.name + "-"@ + version,
        None => package.name,
    }
}

/// The command that installs `packages`: the package manager, its
/// subcommand, the flag that answers its questions, then one word per
/// package in the order given.
pub open spec fn install_command(packages: Seq<PackageView>) -> Seq<Seq<char>> {
    seq!["dnf"@, "install"@, "-y"@] + packages.map_values(|p: PackageView| package_spec(p))
}

/// The path of the staged snippet, relative to the target root.
pub open spec fn ssh_conf_path() -> Seq<char> {
    USR_TMPFILES@ + "/"@ + PROGRAM_NAME@ + "-root-ssh.conf"@
}

/// One `tmpfiles.d` line that creates `authorized_keys` below `home` with
/// the content whose base64 text is `encoded`.
pub open spec fn tmpfiles_line(home: Seq<char>, encoded: Seq<char>) -> Seq<char> {
    "f~ /"@ + home + "/.ssh/authorized_keys 600 root root - "@ + encoded + "\n"@
}

/// The line that provisions `key` in a system laid out as `root`.
pub open spec fn key_line(root: SourceRootView, key: SshkeyView) -> Seq<char> {
    tmpfiles_line(root_home(root), base64_text(encode_utf8(key.pubkey)))
}

/// The snippet for `keys`: one line per key, in order.
pub open spec fn key_lines(root: SourceRootView, keys: Seq<SshkeyView>) -> Seq<char>
    decreases keys.len(),
{
    if keys.len() == 0 {
        Seq::empty()
    } else {
        key_lines(root, keys.drop_last()) + key_line(root, keys.last())
    }
}

/// Whether every key is for the supported user.
pub open spec fn all_for_root(keys: Seq<SshkeyView>) -> bool {
    forall|i: int| 0 <= i < keys.len() ==> (#[trigger] keys[i]).user == supported_user()
}

/// Whether the encoder accepts every key.
pub open spec fn all_encodable(keys: Seq<SshkeyView>) -> bool {
    forall|i: int|
        0 <= i < keys.len() ==> encode_utf8((#[trigger] keys[i]).pubkey).len()
            <= max_encodable_len()
}

/// The directories staged once `keys` are rendered on top of `dirs`.
pub open spec fn dirs_after(dirs: Set<Seq<char>>, keys: Seq<SshkeyView>) -> Set<Seq<char>> {
    if keys.len() > 0 {
        dirs.insert(USR_TMPFILES@)
    } else {
        dirs
    }
}

/// The files staged once `keys` are rendered on top of `files`: the snippet
/// is replaced as a whole, every other file stays.
pub open spec fn files_after(
    files: Map<Seq<char>, FileView>,
    root: SourceRootView,
    keys: Seq<SshkeyView>,
) -> Map<Seq<char>, FileView> {
    if keys.len() > 0 {
        files.insert(ssh_conf_path(), ssh_conf(key_lines(root, keys)))
    } else {
        files
    }
}

/// The commands queued once `packages` are rendered behind `queue`.
pub open spec fn queue_after(queue: Seq<Seq<Seq<char>>>, packages: Seq<PackageView>) -> Seq<
    Seq<Seq<char>>,
> {
    if packages.len() > 0 {
        queue.push(install_command(packages))
    } else {
        queue
    }
}

/// The staged snippet that holds `contents`.
pub open spec fn ssh_conf(contents: Seq<char>) -> FileView {
    FileView { contents, mode: SSH_CONF_MODE }
}

/// Whether `rendered` holds exactly what rendering `blueprint` puts into an
/// accumulator that held nothing: the snippet for its keys, if it has keys,
/// and the command for its packages, if it has packages.
pub open spec fn renders(blueprint: Blueprint, root: SourceRootView, rendered: Rendered) -> bool {
    &&& rendered.filesystem.dirs() == dirs_after(Set::<Seq<char>>::empty(), blueprint.keys())
    &&& rendered.filesystem.files() == files_after(
        Map::<Seq<char>, FileView>::empty(),
        root,
        blueprint.keys(),
    )
    &&& rendered.queue() == queue_after(
        Seq::<Seq<Seq<char>>>::empty(),
        blueprint.package_list(),
    )
}

/// Rendering is idempotent for the snippet: rendering the same keys a second
/// time on top of the first leaves every file and directory as the first
/// rendering left it.  The snippet is replaced by an identical one; nothing
/// is appended and nothing is duplicated.
pub proof fn lemma_rendering_keys_twice(
    dirs: Set<Seq<char>>,
    files: Map<Seq<char>, FileView>,
    root: SourceRootView,
    keys: Seq<SshkeyView>,
)
    ensures
        files_after(files_after(files, root, keys), root, keys) == files_after(files, root, keys),
        dirs_after(dirs_after(dirs, keys), keys) == dirs_after(dirs, keys),
{
    assert(files_after(files_after(files, root, keys), root, keys) =~= files_after(
        files,
        root,
        keys,
    ));
    assert(dirs_after(dirs_after(dirs, keys), keys) =~= dirs_after(dirs, keys));
}

/// What the snippet holds after rendering depends on the keys and the
/// source root alone, not on what was staged before.
pub proof fn lemma_snippet_is_rewritten(
    files: Map<Seq<char>, FileView>,
    root: SourceRootView,
    keys: Seq<SshkeyView>,
)
    requires
        keys.len() > 0,
    ensures
        files_after(files, root, keys).contains_key(ssh_conf_path()),
        files_after(files, root, keys)[ssh_conf_path()] == ssh_conf(key_lines(root, keys)),
{
}

/// The snippet for one key is the line of that key.
pub proof fn lemma_single_key_line(root: SourceRootView, key: SshkeyView)
    ensures
        key_lines(root, seq![key]) == key_line(root, key),
{
    let keys = seq![key];
    assert(keys.drop_last() =~= Seq::<SshkeyView>::empty());
    assert(key_lines(root, keys.drop_last()) =~= Seq::<char>::empty());
    assert(keys.last() == key);
    assert(key_lines(root, keys) =~= key_line(root, key));
}

/// The snippet for a list of keys is the snippet for its front followed by
/// the snippet for its back: one line per key, in order.
pub proof fn lemma_key_lines_concat(
    root: SourceRootView,
    front: Seq<SshkeyView>,
    back: Seq<SshkeyView>,
)
    ensures
        key_lines(root, front + back) == key_lines(root, front) + key_lines(root, back),
    decreases back.len(),
{
    if back.len() == 0 {
        assert(front + back =~= front);
        assert(key_lines(root, front) + key_lines(root, back) =~= key_lines(root, front));
    } else {
        let all = front + back;
        assert(all.drop_last() =~= front + back.drop_last());
        assert(all.last() == back.last());
        lemma_key_lines_concat(root, front, back.drop_last());
        assert(key_lines(root, all) =~= key_lines(root, front) + key_lines(root, back));
    }
}

/// The operation that every renderer offers: render the entity into the
/// accumulator, and say whether that changed anything.
///
/// Rendering is all or nothing: a renderer that fails, and one that reports
/// no change, leaves the accumulator as it was.
pub trait Render {
    /// Whether the entity is within the limits of this machine.
    spec fn renderable(&self) -> bool;

    /// Renders the entity, in a system laid out as `root`, into `out`.
    fn render(&self, root: &SourceRoot, out: &mut Rendered) -> (r: Result<bool, RenderError>)
        requires
            self.renderable(),
        ensures
            r is Err ==> *final(out) == *old(out),
            r == Ok::<bool, RenderError>(false) ==> *final(out) == *old(out),
            old(out).wf() ==> final(out).wf(),
    ;
}

/// Builds one `tmpfiles.d` line from the resolved home directory and the
/// base64 text of a key.
pub fn make_tmpfiles_line(home: &str, encoded: &str) -> (line: String)
    ensures
        line@ == tmpfiles_line(home@, encoded@),
{
    let mut line = "f~ /".to_owned();
    line.append(home);
    line.append("/.ssh/authorized_keys 600 root root - ");
    line.append(encoded);
    line.append("\n");
    line
}

/// Builds the path of the staged snippet.
pub fn make_ssh_conf_path() -> (path: String)
    ensures
        path@ == ssh_conf_path(),
{
    let mut path = USR_TMPFILES.to_owned();
    path.append("/");
    path.append(PROGRAM_NAME);
    path.append("-root-ssh.conf");
    path
}

/// Stages the snippet with the given contents, and the directory it lives in.
fn stage_ssh_conf(contents: &str, out: &mut Rendered)
    ensures
        final(out).commands == old(out).commands,
        final(out).filesystem.dirs() == old(out).filesystem.dirs().insert(USR_TMPFILES@),
        final(out).filesystem.files() == old(out).filesystem.files().insert(
            ssh_conf_path(),
            ssh_conf(contents@),
        ),
{
    let path = make_ssh_conf_path();
    proof {
        lemma_artifact_paths_are_clean();
    }
    out.filesystem.create_dir_all(USR_TMPFILES).unwrap();
    out.filesystem.atomic_write_with_perms(path.as_str(), contents, SSH_CONF_MODE).unwrap();
}

/// The paths that rendering stages are clean relative paths, so staging
/// them cannot be refused and cannot lead out of the target root.
pub proof fn lemma_artifact_paths_are_clean()
    ensures
        is_clean(USR_TMPFILES@),
        is_clean(ssh_conf_path()),
{
    reveal_strlit("usr/lib/tmpfiles.d");
    reveal_strlit("/");
    reveal_strlit("osbuild-cfg");
    reveal_strlit("-root-ssh.conf");
    reveal_strlit("usr/lib/tmpfiles.d/osbuild-cfg-root-ssh.conf");
    assert(ssh_conf_path() =~= "usr/lib/tmpfiles.d/osbuild-cfg-root-ssh.conf"@);
}

impl Sshkey {
    /// Whether the key is for the supported user.
    pub open spec fn is_for_root(&self) -> bool {
        self.user@ == supported_user()
    }

    /// Whether the key is short enough for the encoder.
    pub open spec fn encodable(&self) -> bool {
        encode_utf8(self.pubkey@).len() <= max_encodable_len()
    }

    /// Decides whether the key is for the supported user.
    pub fn for_root(&self) -> (b: bool)
        ensures
            b == self.is_for_root(),
    {
        str_eq(self.user.as_str(), "root")
    }

    /// Decides whether the key is short enough for the encoder.
    pub fn fits_encoder(&self) -> (b: bool)
        ensures
            b == self.encodable(),
    {
        self.pubkey.as_str().as_bytes().len() <= usize::MAX / 512
    }

    /// The line that provisions this key.
    pub fn line(&self, root: &SourceRoot) -> (line: String)
        requires
            self.encodable(),
        ensures
            line@ == key_line(root@, self@),
    {
        let home = root.home();
        let encoded = base64_encode(self.pubkey.as_str().as_bytes());
        make_tmpfiles_line(home.as_str(), encoded.as_str())
    }
}

impl Render for Sshkey {
    open spec fn renderable(&self) -> bool {
        self.encodable()
    }

    /// Renders this key alone: stages the snippet with the one line that
    /// provisions it.
    ///
    /// A key for another user than `root` is refused, and nothing is staged.
    fn render(&self, root: &SourceRoot, out: &mut Rendered) -> (r: Result<bool, RenderError>)
        ensures
            !self.is_for_root() ==> r == Err::<bool, RenderError>(RenderError::NonRootSshUser),
            self.is_for_root() ==> {
                &&& r == Ok::<bool, RenderError>(true)
                &&& final(out).commands == old(out).commands
                &&& final(out).filesystem.dirs() == old(out).filesystem.dirs().insert(USR_TMPFILES@)
                &&& final(out).filesystem.files() == old(out).filesystem.files().insert(
                    ssh_conf_path(),
                    ssh_conf(key_line(root@, self@)),
                )
            },
    {
        if !self.for_root() {
            return Err(RenderError::NonRootSshUser);
        }
        let line = self.line(root);
        stage_ssh_conf(line.as_str(), out);
        Ok(true)
    }
}

/// The word that names `package` to the package manager.
pub fn package_word(package: &Package) -> (word: String)
    ensures
        word@ == package_spec(package@),
{
    match &package.version {
        Some(version) => {
            let mut word = package.name.clone();
            word.append("-");
            word.append(version.as_str());
            word
        },
        None => package.name.clone(),
    }
}

impl Packages {
    /// Builds the command that installs the packages of this list.
    pub fn install_command(&self) -> (command: ExecuteCommand)
        ensures
            command@ == install_command(self@),
            command.wf(),
    {
        let mut words: Vec<String> = Vec::new();
        words.push("dnf".to_owned());
        words.push("install".to_owned());
        words.push("-y".to_owned());
        let mut i: usize = 0;
        while i < self.0.len()
            invariant
                i <= self.0@.len(),
                words@.len() == 3 + i,
                words@[0]@ == "dnf"@,
                words@[1]@ == "install"@,
                words@[2]@ == "-y"@,
                forall|k: int| 0 <= k < i ==> (#[trigger] words@[3 + k])@ == package_spec(self.0@[k]@),
            decreases self.0.len() - i,
        {
            words.push(package_word(&self.0[i]));
            i = i + 1;
        }
        let command = ExecuteCommand(words);
        proof {
            let want = install_command(self@);
            let head = seq!["dnf"@, "install"@, "-y"@];
            let tail = self@.map_values(|p: PackageView| package_spec(p));
            assert(want == head + tail);
            assert(command@.len() == want.len());
            assert forall|k: int| 0 <= k < want.len() implies command@[k] == want[k] by {
                if k >= 3 {
                    assert(want[k] == tail[k - 3]);
                    assert(self@[k - 3] == self.0@[k - 3]@);
                    assert(words@[3 + (k - 3)]@ == package_spec(self.0@[k - 3]@));
                } else {
                    assert(want[k] == head[k]);
                }
            }
            assert(command@ =~= want);
        }
        command
    }
}

impl Render for Packages {
    open spec fn renderable(&self) -> bool {
        true
    }

    /// Renders the package list: queues the one command that installs all of
    /// it, in document order.  An empty list queues nothing.
    ///
    /// Nothing is staged, and the source root is not consulted.
    fn render(&self, root: &SourceRoot, out: &mut Rendered) -> (r: Result<bool, RenderError>)
        ensures
            r == Ok::<bool, RenderError>(self@.len() > 0),
            final(out).filesystem == old(out).filesystem,
            final(out).queue() == queue_after(old(out).queue(), self@),
    {
        if self.0.len() == 0 {
            return Ok(false);
        }
        let command = self.install_command();
        out.commands.push(command);
        assert(out.queue() =~= old(out).queue().push(install_command(self@)));
        Ok(true)
    }
}

/// Renders a list of keys into the one snippet that provisions them all.
fn render_keys(keys: &Vec<Sshkey>, root: &SourceRoot, out: &mut Rendered) -> (r: Result<
    bool,
    RenderError,
>)
    requires
        all_encodable(key_views(keys@)),
    ensures
        !all_for_root(key_views(keys@)) ==> r == Err::<bool, RenderError>(
            RenderError::NonRootSshUser,
        ) && *final(out) == *old(out),
        all_for_root(key_views(keys@)) && keys@.len() == 0 ==> r == Ok::<bool, RenderError>(false)
            && *final(out) == *old(out),
        all_for_root(key_views(keys@)) && keys@.len() > 0 ==> {
            &&& r == Ok::<bool, RenderError>(true)
            &&& final(out).commands == old(out).commands
            &&& final(out).filesystem.dirs() == old(out).filesystem.dirs().insert(USR_TMPFILES@)
            &&& final(out).filesystem.files() == old(out).filesystem.files().insert(
                ssh_conf_path(),
                ssh_conf(key_lines(root@, key_views(keys@))),
            )
        },
{
    let ghost views = key_views(keys@);
    if !keys_for_root(keys) {
        return Err(RenderError::NonRootSshUser);
    }
    if keys.len() == 0 {
        return Ok(false);
    }
    let mut contents = String::new();
    let mut i: usize = 0;
    while i < keys.len()
        invariant
            i <= keys@.len(),
            views == key_views(keys@),
            all_encodable(views),
            contents@ == key_lines(root@, views.take(i as int)),
        decreases keys.len() - i,
    {
        proof {
            assert(views.take(i + 1).drop_last() == views.take(i as int));
            assert(views.take(i + 1).last() == keys@[i as int]@);
            assert(views[i as int] == keys@[i as int]@);
        }
        let line = keys[i].line(root);
        contents.append(line.as_str());
        i = i + 1;
    }
    assert(views.take(i as int) == views);
    stage_ssh_conf(contents.as_str(), out);
    Ok(true)
}

impl Render for Customizations {
    open spec fn renderable(&self) -> bool {
        all_encodable(self.keys())
    }

    /// Renders the customizations: stages the snippet that provisions the
    /// SSH keys, one line per key in document order.
    ///
    /// All keys are checked before anything is staged: one key for another
    /// user than `root` fails the whole rendering and leaves the accumulator
    /// as it was.  Without keys nothing is staged.
    fn render(&self, root: &SourceRoot, out: &mut Rendered) -> (r: Result<bool, RenderError>)
        ensures
            !all_for_root(self.keys()) ==> r == Err::<bool, RenderError>(
                RenderError::NonRootSshUser,
            ),
            all_for_root(self.keys()) ==> {
                &&& r == Ok::<bool, RenderError>(self.keys().len() > 0)
                &&& final(out).commands == old(out).commands
                &&& final(out).filesystem.dirs() == dirs_after(
                    old(out).filesystem.dirs(),
                    self.keys(),
                )
                &&& final(out).filesystem.files() == files_after(
                    old(out).filesystem.files(),
                    root@,
                    self.keys(),
                )
            },
    {
        match &self.sshkey {
            Some(keys) => render_keys(keys, root, out),
            None => Ok(false),
        }
    }
}

impl Render for Blueprint {
    open spec fn renderable(&self) -> bool {
        all_encodable(self.keys())
    }

    /// Renders the blueprint: the customizations first, then the packages.
    ///
    /// Fails, with the accumulator left as it was, exactly when an SSH key is
    /// for another user than `root`.  Otherwise the keys, if there are any,
    /// are staged as one snippet, the packages, if there are any, are queued
    /// as one command behind the commands already there, and the result says
    /// whether either happened.
    fn render(&self, root: &SourceRoot, out: &mut Rendered) -> (r: Result<bool, RenderError>)
        ensures
            !all_for_root(self.keys()) ==> r == Err::<bool, RenderError>(
                RenderError::NonRootSshUser,
            ),
            all_for_root(self.keys()) ==> {
                &&& r == Ok::<bool, RenderError>(!self.is_vacant())
                &&& final(out).filesystem.dirs() == dirs_after(
                    old(out).filesystem.dirs(),
                    self.keys(),
                )
                &&& final(out).filesystem.files() == files_after(
                    old(out).filesystem.files(),
                    root@,
                    self.keys(),
                )
                &&& final(out).queue() == queue_after(old(out).queue(), self.package_list())
            },
            self.is_vacant() ==> r == Ok::<bool, RenderError>(false) && *final(out) == *old(out),
    {
        let staged = match &self.customizations {
            Some(customizations) => {
                match customizations.render(root, out) {
                    Ok(changed) => changed,
                    Err(e) => {
                        return Err(e);
                    },
                }
            },
            None => false,
        };
        let queued = match &self.packages {
            Some(packages) => {
                match packages.render(root, out) {
                    Ok(changed) => changed,
                    Err(e) => {
                        return Err(e);
                    },
                }
            },
            None => false,
        };
        Ok(staged || queued)
    }
}

/// Decides whether every key in `keys` is for the supported user.
fn keys_for_root(keys: &Vec<Sshkey>) -> (b: bool)
    ensures
        b == all_for_root(key_views(keys@)),
{
    let ghost views = key_views(keys@);
    let mut i: usize = 0;
    while i < keys.len()
        invariant
            i <= keys@.len(),
            views == key_views(keys@),
            forall|k: int| 0 <= k < i ==> (#[trigger] views[k]).user == supported_user(),
        decreases keys.len() - i,
    {
        if !keys[i].for_root() {
            assert(views[i as int].user != supported_user());
            return false;
        }
        i = i + 1;
    }
    true
}

/// Decides whether the encoder accepts every key in `keys`.
fn keys_encodable(keys: &Vec<Sshkey>) -> (b: bool)
    ensures
        b == all_encodable(key_views(keys@)),
{
    let ghost views = key_views(keys@);
    let mut i: usize = 0;
    while i < keys.len()
        invariant
            i <= keys@.len(),
            views == key_views(keys@),
            forall|k: int|
                0 <= k < i ==> encode_utf8((#[trigger] views[k]).pubkey).len()
                    <= max_encodable_len(),
        decreases keys.len() - i,
    {
        if !keys[i].fits_encoder() {
            assert(encode_utf8(views[i as int].pubkey).len() > max_encodable_len());
            return false;
        }
        i = i + 1;
    }
    true
}

impl Blueprint {
    /// The list of keys, where the document has one.
    fn key_list(&self) -> (keys: Option<&Vec<Sshkey>>)
        ensures
            match keys {
                Some(keys) => self.keys() == key_views(keys@),
                None => self.keys().len() == 0,
            },
    {
        match &self.customizations {
            Some(customizations) => match &customizations.sshkey {
                Some(keys) => Some(keys),
                None => None,
            },
            None => None,
        }
    }

    /// Decides whether the blueprint provisions any key.  Only then does
    /// rendering depend on the source root.
    pub fn has_keys(&self) -> (b: bool)
        ensures
            b == (self.keys().len() > 0),
    {
        match self.key_list() {
            Some(keys) => keys.len() > 0,
            None => false,
        }
    }

    /// Decides whether every key is for the supported user.
    pub fn keys_for_root(&self) -> (b: bool)
        ensures
            b == all_for_root(self.keys()),
    {
        match self.key_list() {
            Some(keys) => keys_for_root(keys),
            None => true,
        }
    }

    /// Decides whether the encoder accepts every key.
    pub fn keys_encodable(&self) -> (b: bool)
        ensures
            b == all_encodable(self.keys()),
    {
        match self.key_list() {
            Some(keys) => keys_encodable(keys),
            None => true,
        }
    }
}

} // verus!
