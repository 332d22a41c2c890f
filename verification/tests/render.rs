use osbuild_cfg::blueprint::{Blueprint, Customizations, Package, Packages, Sshkey};
use osbuild_cfg::render::{
    make_ssh_conf_path, make_tmpfiles_line, package_word, Render, RenderError, PROGRAM_NAME,
    SSH_CONF_MODE, USR_TMPFILES,
};
use osbuild_cfg::command::ExecuteCommand;
use osbuild_cfg::rendered::Rendered;
use osbuild_cfg::source_root::SourceRoot;

const DEMO_KEY: &str =
    "ssh-ed25519 AAAAC3NzaC1lZDI1NTE5AAAAIA1hVwAoNDa64+woHYxkHfdu6qmdC1BsLXReeQz/CBri example@demo";
const DEMO_LINE: &str = "f~ /root/.ssh/authorized_keys 600 root root - c3NoLWVkMjU1MTkgQUFBQUMzTnphQzFsWkRJMU5URTVBQUFBSUExaFZ3QW9ORGE2NCt3b0hZeGtIZmR1NnFtZEMxQnNMWFJlZVF6L0NCcmkgZXhhbXBsZUBkZW1v\n";

/// Reads a blueprint from its TOML text, by way of the generic table.  It
/// reads the keys of the document model and looks at no others.
fn parse(doc: &str) -> Result<Blueprint, toml::de::Error> {
    let table: toml::Table = toml::from_str(doc)?;
    let text = |v: &toml::Value| v.as_str().unwrap().to_string();
    let packages = table.get("packages").map(|list| {
        Packages(
            list.as_array()
                .unwrap()
                .iter()
                .map(|p| Package { name: text(&p["name"]), version: p.get("version").map(text) })
                .collect(),
        )
    });
    let customizations = table.get("customizations").map(|c| Customizations {
        sshkey: c.get("sshkey").map(|keys| {
            keys.as_array()
                .unwrap()
                .iter()
                .map(|k| Sshkey { user: text(&k["user"]), pubkey: text(&k["key"]) })
                .collect()
        }),
    });
    Ok(Blueprint { packages, customizations })
}

fn package(name: &str, version: Option<&str>) -> Package {
    Package { name: name.to_string(), version: version.map(|v| v.to_string()) }
}

fn key(user: &str, pubkey: &str) -> Sshkey {
    Sshkey { user: user.to_string(), pubkey: pubkey.to_string() }
}

fn with_keys(keys: Vec<Sshkey>) -> Blueprint {
    Blueprint { packages: None, customizations: Some(Customizations { sshkey: Some(keys) }) }
}

fn conf_name() -> String {
    format!("{}/{}-root-ssh.conf", USR_TMPFILES, PROGRAM_NAME)
}

#[test]
fn test_empty() {
    let root = &SourceRoot::plain();

    let empty: Blueprint = parse("[customizations]").unwrap();
    assert_eq!(
        empty,
        Blueprint { packages: None, customizations: Some(Customizations { sshkey: None }) }
    );
    let mut r = Rendered::new();
    let changed = empty.render(root, &mut r).unwrap();
    assert!(r.commands.is_empty());
    assert_eq!(r.filesystem.entries().len(), 0);
    assert!(!changed);
}

// Two documents that give no blueprint to act on.  The empty document holds
// no table at all and renders to nothing; the other one does not parse, so
// there is nothing to render.  Either way no entry is staged.
#[test]
fn test_invalid() {
    let root = &SourceRoot::plain();
    for case in ["", "[foo]\nbar=baz"] {
        let mut r = Rendered::new();
        match parse(case) {
            Ok(empty) => {
                assert_eq!(empty, Blueprint { packages: None, customizations: None });
                assert_eq!(empty.render(root, &mut r), Ok(false));
            }
            Err(e) => assert!(!e.to_string().is_empty()),
        }
        assert!(r.commands.is_empty());
        assert_eq!(r.filesystem.entries().len(), 0);
    }
}

#[test]
fn test_sshkeys() {
    let root = &SourceRoot::plain();

    let blueprint: Blueprint = parse(
        "[[customizations.sshkey]]\n\
         user = \"root\"\n\
         key = \"ssh-ed25519 AAAAC3NzaC1lZDI1NTE5AAAAIA1hVwAoNDa64+woHYxkHfdu6qmdC1BsLXReeQz/CBri example@demo\"\n",
    )
    .unwrap();
    assert_eq!(blueprint, with_keys(vec![key("root", DEMO_KEY)]));
    let mut r = Rendered::new();
    let changed = blueprint.render(root, &mut r).unwrap();
    // Nothing to execute for this
    assert!(r.commands.is_empty());
    assert_eq!(r.filesystem.entries().len(), 1);
    assert!(changed);
    let filename = format!("{}/{}-root-ssh.conf", USR_TMPFILES, PROGRAM_NAME);
    let contents = r.filesystem.read_to_string(&filename).unwrap();
    assert_eq!(contents, "f~ /root/.ssh/authorized_keys 600 root root - c3NoLWVkMjU1MTkgQUFBQUMzTnphQzFsWkRJMU5URTVBQUFBSUExaFZ3QW9ORGE2NCt3b0hZeGtIZmR1NnFtZEMxQnNMWFJlZVF6L0NCcmkgZXhhbXBsZUBkZW1v\n");
}

#[test]
fn test_packages() {
    let root = &SourceRoot::plain();

    let blueprint: Blueprint = parse(
        "[[packages]]\n\
         name = \"httpd\"\n\
         version = \"2.4\"\n\
         [[packages]]\n\
         name = \"mariadb-server\"\n\
         [[packages]]\n\
         name = \"mariadb\"  \n\
         [[packages]]\n\
         name = \"php\"\n\
         version = \"5.1\"\n",
    )
    .unwrap();
    assert_eq!(
        blueprint,
        Blueprint {
            packages: Some(Packages(vec![
                package("httpd", Some("2.4")),
                package("mariadb-server", None),
                package("mariadb", None),
                package("php", Some("5.1")),
            ])),
            customizations: None,
        }
    );
    let mut r = Rendered::new();
    let changed = blueprint.render(root, &mut r).unwrap();
    assert!(changed);
    let dnf = r.commands.pop().unwrap().0;
    let dnf = &dnf.iter().map(|s| s.as_str()).collect::<Vec<_>>();
    assert!(r.commands.is_empty());
    assert_eq!(
        dnf.as_slice(),
        [
            "dnf",
            "install",
            "-y",
            "httpd-2.4",
            "mariadb-server",
            "mariadb",
            "php-5.1"
        ]
    );
    assert_eq!(r.filesystem.entries().len(), 0);
}

#[test]
fn blueprint_without_anything_renders_nothing() {
    let root = SourceRoot::plain();
    for blueprint in [
        Blueprint { packages: None, customizations: None },
        Blueprint { packages: Some(Packages(vec![])), customizations: None },
        Blueprint { packages: None, customizations: Some(Customizations { sshkey: Some(vec![]) }) },
        Blueprint {
            packages: Some(Packages(vec![])),
            customizations: Some(Customizations { sshkey: None }),
        },
    ] {
        let mut r = Rendered::new();
        assert_eq!(blueprint.render(&root, &mut r), Ok(false));
        assert!(r.commands.is_empty());
        assert!(r.filesystem.is_empty());
        assert!(r.filesystem.entries().is_empty());
        assert!(r.filesystem.staged_dirs().is_empty());
        assert!(r.filesystem.staged_files().is_empty());
    }
}

#[test]
fn single_key_stages_one_file_with_one_line() {
    let root = SourceRoot::plain();
    let mut r = Rendered::new();
    assert_eq!(key("root", DEMO_KEY).render(&root, &mut r), Ok(true));
    assert_eq!(r.filesystem.entries(), vec!["usr".to_string()]);
    assert_eq!(r.filesystem.staged_dirs(), &vec!["usr/lib/tmpfiles.d".to_string()]);
    let files = r.filesystem.staged_files();
    assert_eq!(files.len(), 1);
    assert_eq!(files[0].path, "usr/lib/tmpfiles.d/osbuild-cfg-root-ssh.conf");
    assert_eq!(files[0].contents, DEMO_LINE);
    assert_eq!(files[0].mode, 0o600);
    assert_eq!(SSH_CONF_MODE, 0o600);
    assert_eq!(files[0].contents.lines().count(), 1);
}

#[test]
fn key_line_is_not_the_key_itself() {
    let root = SourceRoot::plain();
    let line = key("root", "hello").line(&root);
    assert_eq!(line, "f~ /root/.ssh/authorized_keys 600 root root - aGVsbG8=\n");
    assert!(!line.contains("hello"));
}

#[test]
fn empty_key_encodes_to_nothing() {
    let root = SourceRoot::plain();
    assert_eq!(key("root", "").line(&root), "f~ /root/.ssh/authorized_keys 600 root root - \n");
}

#[test]
fn root_home_follows_the_symlink() {
    let root = SourceRoot::with_root_link("var/roothome".to_string());
    assert_eq!(root.home(), "var/roothome");
    assert_eq!(SourceRoot::plain().home(), "root");
    let mut r = Rendered::new();
    assert_eq!(with_keys(vec![key("root", "hello")]).render(&root, &mut r), Ok(true));
    assert_eq!(
        r.filesystem.read_to_string(&conf_name()).unwrap(),
        "f~ /var/roothome/.ssh/authorized_keys 600 root root - aGVsbG8=\n"
    );
}

#[test]
fn several_keys_give_one_line_each_in_order() {
    let root = SourceRoot::plain();
    let blueprint = with_keys(vec![key("root", "hello"), key("root", "world"), key("root", "hello")]);
    let mut r = Rendered::new();
    assert_eq!(blueprint.render(&root, &mut r), Ok(true));
    assert_eq!(
        r.filesystem.read_to_string(&conf_name()).unwrap(),
        "f~ /root/.ssh/authorized_keys 600 root root - aGVsbG8=\n\
         f~ /root/.ssh/authorized_keys 600 root root - d29ybGQ=\n\
         f~ /root/.ssh/authorized_keys 600 root root - aGVsbG8=\n"
    );
    assert_eq!(r.filesystem.entries().len(), 1);
}

#[test]
fn rendering_keys_twice_gives_identical_content() {
    let root = SourceRoot::plain();
    let blueprint = with_keys(vec![key("root", DEMO_KEY), key("root", "hello")]);
    let mut once = Rendered::new();
    blueprint.render(&root, &mut once).unwrap();
    let first = once.filesystem.read_to_string(&conf_name()).unwrap();

    // A second run starts from a fresh accumulator.
    let mut again = Rendered::new();
    blueprint.render(&root, &mut again).unwrap();
    assert_eq!(again.filesystem.read_to_string(&conf_name()).unwrap(), first);

    // Rendering on top of the first rendering replaces the snippet as a whole.
    blueprint.render(&root, &mut once).unwrap();
    assert_eq!(once.filesystem.read_to_string(&conf_name()).unwrap(), first);
    assert_eq!(first.lines().count(), 2);
    assert_eq!(once.filesystem.entries(), vec!["usr".to_string()]);
}

#[test]
fn non_root_key_fails_before_anything_is_staged() {
    let root = SourceRoot::plain();
    let mut r = Rendered::new();
    assert_eq!(key("alice", DEMO_KEY).render(&root, &mut r), Err(RenderError::NonRootSshUser));
    assert!(r.filesystem.is_empty());

    // A later key for another user fails the whole rendering, also where
    // the keys before it are fine and packages are asked for.
    let blueprint = Blueprint {
        packages: Some(Packages(vec![package("httpd", None)])),
        customizations: Some(Customizations {
            sshkey: Some(vec![key("root", DEMO_KEY), key("alice", DEMO_KEY)]),
        }),
    };
    assert!(!blueprint.keys_for_root());
    assert_eq!(blueprint.render(&root, &mut r), Err(RenderError::NonRootSshUser));
    assert!(r.filesystem.is_empty());
    assert_eq!(r.filesystem.entries().len(), 0);
    assert!(r.commands.is_empty());
    for user in ["", "Root", "root ", "toor"] {
        assert!(!key(user, "k").for_root());
    }
    assert!(key("root", "k").for_root());
}

#[test]
fn keys_are_staged_and_packages_queued_together() {
    let root = SourceRoot::plain();
    let blueprint = Blueprint {
        packages: Some(Packages(vec![package("httpd", None)])),
        customizations: Some(Customizations { sshkey: Some(vec![key("root", "hello")]) }),
    };
    assert!(blueprint.has_keys());
    assert!(blueprint.keys_encodable());
    let mut r = Rendered::new();
    r.commands.push(ExecuteCommand(vec!["true".to_string()]));
    assert_eq!(blueprint.render(&root, &mut r), Ok(true));
    assert_eq!(
        r.commands,
        vec![
            ExecuteCommand(vec!["true".to_string()]),
            ExecuteCommand(vec![
                "dnf".to_string(),
                "install".to_string(),
                "-y".to_string(),
                "httpd".to_string()
            ]),
        ]
    );
    assert!(r.filesystem.read_to_string(&conf_name()).is_some());
}

#[test]
fn empty_package_list_queues_no_command() {
    let root = SourceRoot::plain();
    let mut r = Rendered::new();
    assert_eq!(Packages(vec![]).render(&root, &mut r), Ok(false));
    assert!(r.commands.is_empty());
}

#[test]
fn duplicate_packages_are_passed_through() {
    let root = SourceRoot::plain();
    let mut r = Rendered::new();
    let packages = Packages(vec![
        package("mariadb", None),
        package("mariadb", Some("10")),
        package("mariadb", None),
    ]);
    assert_eq!(packages.render(&root, &mut r), Ok(true));
    assert_eq!(r.commands.len(), 1);
    assert_eq!(r.commands[0].0, ["dnf", "install", "-y", "mariadb", "mariadb-10", "mariadb"]);
    assert_eq!(packages.install_command(), r.commands[0]);
    assert_eq!(r.commands[0].program(), "dnf");
}

#[test]
fn package_word_joins_name_and_version_with_a_hyphen() {
    assert_eq!(package_word(&package("php", Some("5.1"))), "php-5.1");
    assert_eq!(package_word(&package("php", None)), "php");
    assert_eq!(package_word(&package("php", Some(""))), "php-");
}

#[test]
fn tmpfiles_line_format() {
    assert_eq!(
        make_tmpfiles_line("root", "QUJD"),
        "f~ /root/.ssh/authorized_keys 600 root root - QUJD\n"
    );
    assert_eq!(make_ssh_conf_path(), "usr/lib/tmpfiles.d/osbuild-cfg-root-ssh.conf");
}

#[test]
fn customizations_without_keys_change_nothing() {
    let root = SourceRoot::plain();
    let mut r = Rendered::new();
    assert_eq!(Customizations { sshkey: None }.render(&root, &mut r), Ok(false));
    assert_eq!(Customizations { sshkey: Some(vec![]) }.render(&root, &mut r), Ok(false));
    assert!(r.filesystem.is_empty());
    assert!(key("root", "short").fits_encoder());
}
