//! The clone command's decision logic: which option combinations are
//! refused, when the fallback implementation must take over, what gets
//! written into a fresh repository's configuration, and which revision a
//! fresh clone checks out.

use vstd::prelude::*;

use crate::manifest::HgId;

verus! {

/// Two texts read the same.
pub fn str_eq(a: &str, b: &str) -> (r: bool)
    ensures
        r == (a@ == b@),
{
    a.to_owned() == b.to_owned()
}

/// The views of a list of strings.
pub open spec fn string_views(s: Seq<String>) -> Seq<Seq<char>>
    decreases s.len(),
{
    if s.len() == 0 {
        Seq::empty()
    } else {
        string_views(s.drop_last()).push(s.last()@)
    }
}

/// Appending a string appends its view.
proof fn lemma_string_views_push(s: Seq<String>, x: String)
    ensures
        string_views(s.push(x)) =~= string_views(s).push(x@),
{
    assert(s.push(x).drop_last() =~= s);
}

/// The command name used for forcing the rust path.
pub fn force_rust_requested(commands: &Vec<String>) -> (r: bool)
    ensures
        r == exists|i: int| 0 <= i < commands@.len() && (#[trigger] commands@[i])@ == "clone"@,
{
    let n = commands.len();
    let mut i: usize = 0;
    while i < n
        invariant
            n == commands@.len(),
            i <= n,
            forall|j: int| 0 <= j < i ==> (#[trigger] commands@[j])@ != "clone"@,
        decreases n - i,
    {
        if str_eq(commands[i].as_str(), "clone") {
            return true;
        }
        i += 1;
    }
    false
}

/// The conflict among the virtualized-checkout options, tested in the order
/// the command tests them.
pub open spec fn spec_eden_conflict(
    eden: bool,
    has_backing_repo: bool,
    any_profile: bool,
    noupdate: bool,
) -> Option<Seq<char>> {
    if !eden && has_backing_repo {
        Some("--eden-backing-repo requires --eden"@)
    } else if any_profile && eden {
        Some("--enable-profile is not compatible with --eden"@)
    } else if eden && noupdate {
        Some("--noupdate is not compatible with --eden"@)
    } else {
        None
    }
}

/// Refuses option combinations that cannot work together, with the message
/// of the first conflict found.
pub fn validate_eden_options(
    eden: bool,
    has_backing_repo: bool,
    any_profile: bool,
    noupdate: bool,
) -> (r: Result<(), &'static str>)
    ensures
        match r {
            Ok(_) => spec_eden_conflict(eden, has_backing_repo, any_profile, noupdate) is None,
            Err(m) => spec_eden_conflict(eden, has_backing_repo, any_profile, noupdate) == Some(
                m@,
            ),
        },
{
    if !eden && has_backing_repo {
        Err("--eden-backing-repo requires --eden")
    } else if any_profile && eden {
        Err("--enable-profile is not compatible with --eden")
    } else if eden && noupdate {
        Err("--noupdate is not compatible with --eden")
    } else {
        Ok(())
    }
}

/// A clone source scheme the rust clone handles itself: anything but local
/// files and plain ssh. A source that is no URL at all is unsupported.
pub fn scheme_supported(scheme: Option<&str>) -> (r: bool)
    ensures
        r == match scheme {
            Some(s) => s@ != "file"@ && s@ != "ssh"@,
            None => false,
        },
{
    match scheme {
        Some(s) => !str_eq(s, "file") && !str_eq(s, "ssh"),
        None => false,
    }
}

/// Whether the options force the fallback implementation: any of the
/// unsupported requests, or an unsupported source.
pub fn needs_python_fallback(
    has_updaterev: bool,
    has_rev: bool,
    pull: bool,
    stream: bool,
    shallow: bool,
    git: bool,
    supported_url: bool,
) -> (r: bool)
    ensures
        r == (has_updaterev || has_rev || pull || stream || !shallow || git || !supported_url),
{
    has_updaterev || has_rev || pull || stream || !shallow || git || !supported_url
}

/// Which clone mode the options pick, as logged.
pub fn clone_type(eden: bool, any_profile: bool) -> (r: &'static str)
    ensures
        r@ == if eden {
            "eden_fs"@
        } else if any_profile {
            "sparse"@
        } else {
            "full"@
        },
{
    if eden {
        "eden_fs"
    } else if any_profile {
        "sparse"
    } else {
        "full"
    }
}

/// The capability that announces lazy commit data.
pub fn has_segmented_changelog(capabilities: &Vec<String>) -> (r: bool)
    ensures
        r == exists|i: int|
            0 <= i < capabilities@.len() && (#[trigger] capabilities@[i])@
                == "segmented-changelog"@,
{
    let n = capabilities.len();
    let mut i: usize = 0;
    while i < n
        invariant
            n == capabilities@.len(),
            i <= n,
            forall|j: int| 0 <= j < i ==> (#[trigger] capabilities@[j])@ != "segmented-changelog"@,
        decreases n - i,
    {
        if str_eq(capabilities[i].as_str(), "segmented-changelog") {
            return true;
        }
        i += 1;
    }
    false
}

/// The source lines a fresh repository's configuration file opens with, one
/// per configuration file carried over.
pub open spec fn spec_repo_config_lines(files: Seq<Seq<char>>) -> Seq<char>
    decreases files.len(),
{
    if files.len() == 0 {
        Seq::empty()
    } else {
        spec_repo_config_lines(files.drop_last()) + "%include "@ + files.last() + "\n"@
    }
}

/// The configuration text written into a fresh clone: the carried-over
/// configuration files, then the default path pointing back at the source.
pub fn repo_config_file_content(config_files: &Vec<String>, source: &str) -> (r: String)
    ensures
        r@ == spec_repo_config_lines(string_views(config_files@)) + "\n[paths]\ndefault = "@
            + source@ + "\n"@,
{
    let mut out = String::new();
    let n = config_files.len();
    let mut i: usize = 0;
    proof {
        assert(config_files@.subrange(0, 0) =~= Seq::<String>::empty());
        assert(out@ =~= spec_repo_config_lines(string_views(config_files@.subrange(0, 0))));
    }
    while i < n
        invariant
            n == config_files@.len(),
            i <= n,
            out@ == spec_repo_config_lines(string_views(config_files@.subrange(0, i as int))),
        decreases n - i,
    {
        proof {
            assert(config_files@.subrange(0, i + 1).drop_last() =~= config_files@.subrange(
                0,
                i as int,
            ));
        }
        out.append("%include ");
        out.append(config_files[i].as_str());
        out.append("\n");
        proof {
            let zfull = string_views(config_files@.subrange(0, i + 1));
            assert(zfull == string_views(config_files@.subrange(0, i as int)).push(
                config_files@[i as int]@,
            ));
            assert(zfull.drop_last() =~= string_views(config_files@.subrange(0, i as int)));
            assert(out@ =~= spec_repo_config_lines(zfull));
        }
        i += 1;
    }
    proof {
        assert(config_files@.subrange(0, n as int) =~= config_files@);
    }
    out.append("\n[paths]\ndefault = ");
    out.append(source);
    out.append("\n");
    proof {
        assert(out@ =~= spec_repo_config_lines(string_views(config_files@))
            + "\n[paths]\ndefault = "@ + source@ + "\n"@);
    }
    out
}

/// The extra argument pair each carried-over configuration value adds to the
/// fallback invocation.
pub open spec fn spec_config_args(configs: Seq<Seq<char>>) -> Seq<Seq<char>>
    decreases configs.len(),
{
    if configs.len() == 0 {
        Seq::empty()
    } else {
        spec_config_args(configs.drop_last()) + seq!["--config"@, configs.last()]
    }
}

/// The argument vector of the fallback clone invocation: the fixed command,
/// the carried-over configuration, and the verbosity flags.
pub fn revlog_clone_args(
    source: &str,
    root: &str,
    configs: &Vec<String>,
    quiet: bool,
    verbose: bool,
    debug: bool,
) -> (r: Vec<String>)
    ensures
        string_views(r@) == seq!["hg"@, "debugrevlogclone"@, source@, "-R"@, root@]
            + spec_config_args(string_views(configs@)) + (if quiet {
            seq!["-q"@]
        } else {
            Seq::<Seq<char>>::empty()
        }) + (if verbose {
            seq!["-v"@]
        } else {
            Seq::<Seq<char>>::empty()
        }) + (if debug {
            seq!["--debug"@]
        } else {
            Seq::<Seq<char>>::empty()
        }),
{
    let ghost head: Seq<Seq<char>> = seq!["hg"@, "debugrevlogclone"@, source@, "-R"@, root@];
    let mut args: Vec<String> = Vec::new();
    let ghost g0 = args@;
    args.push("hg".to_owned());
    let ghost g1 = args@;
    proof {
        lemma_string_views_push(g0, g1.last());
        assert(string_views(g0) =~= Seq::<Seq<char>>::empty());
    }
    args.push("debugrevlogclone".to_owned());
    let ghost g2 = args@;
    proof {
        lemma_string_views_push(g1, g2.last());
    }
    args.push(source.to_owned());
    let ghost g3 = args@;
    proof {
        lemma_string_views_push(g2, g3.last());
    }
    args.push("-R".to_owned());
    let ghost g4 = args@;
    proof {
        lemma_string_views_push(g3, g4.last());
    }
    args.push(root.to_owned());
    proof {
        lemma_string_views_push(g4, args@.last());
        assert(string_views(args@) =~= head);
    }
    let n = configs.len();
    let mut i: usize = 0;
    proof {
        assert(configs@.subrange(0, 0) =~= Seq::<String>::empty());
        assert(head + spec_config_args(string_views(configs@.subrange(0, 0))) =~= head);
    }
    while i < n
        invariant
            n == configs@.len(),
            i <= n,
            string_views(args@) == head + spec_config_args(
                string_views(configs@.subrange(0, i as int)),
            ),
        decreases n - i,
    {
        proof {
            assert(configs@.subrange(0, i + 1).drop_last() =~= configs@.subrange(0, i as int));
        }
        let ghost gpre = args@;
        args.push("--config".to_owned());
        let ghost gmid = args@;
        proof {
            lemma_string_views_push(gpre, gmid.last());
        }
        args.push(configs[i].clone());
        proof {
            lemma_string_views_push(gmid, args@.last());
            let zfull = string_views(configs@.subrange(0, i + 1));
            assert(zfull == string_views(configs@.subrange(0, i as int)).push(
                configs@[i as int]@,
            ));
            assert(zfull.drop_last() =~= string_views(configs@.subrange(0, i as int)));
            assert(string_views(args@) =~= head + spec_config_args(zfull));
        }
        i += 1;
    }
    proof {
        assert(configs@.subrange(0, n as int) =~= configs@);
    }
    let ghost mid = string_views(args@);
    let ghost pre1 = args@;
    if quiet {
        args.push("-q".to_owned());
        proof {
            lemma_string_views_push(pre1, args@.last());
            assert(string_views(args@) =~= mid + seq!["-q"@]);
        }
    }
    let ghost mid2 = string_views(args@);
    let ghost pre2 = args@;
    if verbose {
        args.push("-v".to_owned());
        proof {
            lemma_string_views_push(pre2, args@.last());
            assert(string_views(args@) =~= mid2 + seq!["-v"@]);
        }
    }
    let ghost mid3 = string_views(args@);
    let ghost pre3 = args@;
    if debug {
        args.push("--debug".to_owned());
        proof {
            lemma_string_views_push(pre3, args@.last());
            assert(string_views(args@) =~= mid3 + seq!["--debug"@]);
        }
    }
    proof {
        assert(string_views(args@) =~= head + spec_config_args(string_views(configs@)) + (if quiet {
            seq!["-q"@]
        } else {
            Seq::<Seq<char>>::empty()
        }) + (if verbose {
            seq!["-v"@]
        } else {
            Seq::<Seq<char>>::empty()
        }) + (if debug {
            seq!["--debug"@]
        } else {
            Seq::<Seq<char>>::empty()
        }));
    }
    args
}

/// A fatal command error with its message.
#[derive(Debug)]
pub struct CloneAbort {
    /// What went wrong.
    pub message: String,
}

/// The remote name a local bookmark is tracked under.
pub fn convert_to_remote(bookmark: &str) -> (r: String)
    ensures
        r@ == "remote/"@ + bookmark@,
{
    let mut s = "remote/".to_owned();
    s.append(bookmark);
    s
}

/// The identifier recorded for a remote bookmark name.
pub open spec fn spec_bookmark_lookup(bms: Seq<(String, HgId)>, name: Seq<char>) -> Option<HgId>
    decreases bms.len(),
{
    if bms.len() == 0 {
        None
    } else if bms[0].0@ == name {
        Some(bms[0].1)
    } else {
        spec_bookmark_lookup(bms.drop_first(), name)
    }
}

/// The checkout target of a fresh clone: nothing when no update was asked or
/// the server lacks the main bookmark; refused when no selective bookmark is
/// configured at all.
pub fn update_target(
    noupdate: bool,
    selective_bookmarks: &Vec<String>,
    remote_bookmarks: &Vec<(String, HgId)>,
) -> (r: Result<Option<(HgId, String)>, CloneAbort>)
    ensures
        noupdate ==> r matches Ok(None),
        !noupdate && selective_bookmarks@.len() == 0 ==> (r matches Err(e) && e.message@
            == "remotenames.selectivepulldefault config list is empty"@),
        !noupdate && selective_bookmarks@.len() > 0 ==> match spec_bookmark_lookup(
            remote_bookmarks@,
            "remote/"@ + selective_bookmarks@[0]@,
        ) {
            Some(id) => r matches Ok(Some((rid, bm))) && rid == id && bm@
                == selective_bookmarks@[0]@,
            None => r matches Ok(None),
        },
{
    if noupdate {
        return Ok(None);
    }
    if selective_bookmarks.len() == 0 {
        return Err(
            CloneAbort {
                message: "remotenames.selectivepulldefault config list is empty".to_owned(),
            },
        );
    }
    let main_bookmark = selective_bookmarks[0].clone();
    let remote_bookmark = convert_to_remote(main_bookmark.as_str());
    let n = remote_bookmarks.len();
    let mut i: usize = 0;
    proof {
        assert(remote_bookmarks@.subrange(0, n as int) =~= remote_bookmarks@);
    }
    while i < n
        invariant
            !noupdate,
            selective_bookmarks@.len() > 0,
            n == remote_bookmarks@.len(),
            i <= n,
            remote_bookmark@ == "remote/"@ + selective_bookmarks@[0]@,
            main_bookmark@ == selective_bookmarks@[0]@,
            spec_bookmark_lookup(remote_bookmarks@, remote_bookmark@) == spec_bookmark_lookup(
                remote_bookmarks@.subrange(i as int, n as int),
                remote_bookmark@,
            ),
        decreases n - i,
    {
        proof {
            assert(remote_bookmarks@.subrange(i as int, n as int).drop_first()
                =~= remote_bookmarks@.subrange(i + 1, n as int));
        }
        if str_eq(remote_bookmarks[i].0.as_str(), remote_bookmark.as_str()) {
            return Ok(Some((remote_bookmarks[i].1, main_bookmark)));
        }
        i += 1;
    }
    Ok(None)
}

/// How the command introduces itself to the dispatch table.
pub fn aliases() -> (r: &'static str)
    ensures
        r@ == "clone"@,
{
    "clone"
}

/// The command's help text.
pub const CLONE_DOC: &'static str = "make a copy of an existing repository

    Create a copy of an existing repository in a new directory.

    If no destination directory name is specified, it defaults to the
    basename of the source.

    The location of the source is added to the new repository's
    ``.hg/hgrc`` file, as the default to be used for future pulls.

    Only local paths and ``ssh://`` URLs are supported as
    destinations. For ``ssh://`` destinations, no working directory or
    ``.hg/hgrc`` will be created on the remote side.

    If the source repository has a bookmark called '@' set, that
    revision will be checked out in the new repository by default.

    To check out a particular version, use -u/--update, or
    -U/--noupdate to create a clone with no working directory.

    To pull only a subset of changesets, specify one or more revisions
    identifiers with -r/--rev. The resulting clone will contain only the
    specified changesets and their ancestors. These options (or 'clone src#rev
    dest') imply --pull, even for local source repositories.

    In normal clone mode, the remote normalizes repository data into a common
    exchange format and the receiving end translates this data into its local
    storage format. --stream activates a different clone mode that essentially
    copies repository files from the remote with minimal data processing. This
    significantly reduces the CPU cost of a clone both remotely and locally.
    However, it often increases the transferred data size by 30-40%. This can
    result in substantially faster clones where I/O throughput is plentiful,
    especially for larger repositories. A side-effect of --stream clones is
    that storage settings and requirements on the remote are applied locally:
    a modern client may inherit legacy or inefficient storage used by the
    remote or a legacy @Product@ client may not be able to clone from a
    modern @Product@ remote.

    .. container:: verbose

      For efficiency, hardlinks are used for cloning whenever the
      source and destination are on the same filesystem (note this
      applies only to the repository data, not to the working
      directory). Some filesystems, such as AFS, implement hardlinking
      incorrectly, but do not report errors. In these cases, use the
      --pull option to avoid hardlinking.

      @Product@ will update the working directory to the first applicable
      revision from this list:

      a) null if -U or the source repository has no changesets
      b) if -u . and the source repository is local, the first parent of
         the source repository's working directory
      c) the changeset specified with -u (if a branch name, this means the
         latest head of that branch)
      d) the changeset specified with -r
      e) the tipmost head specified with -b
      f) the tipmost head specified with the url#branch source syntax
      g) the revision marked with the '@' bookmark, if present
      h) the tipmost head of the default branch
      i) tip

      When cloning from servers that support it, @Product@ may fetch
      pre-generated data from a server-advertised URL. When this is done,
      hooks operating on incoming changesets and changegroups may fire twice,
      once for the bundle fetched from the URL and another for any additional
      data not fetched from this URL. In addition, if an error occurs, the
      repository may be rolled back to a partial clone. This behavior may
      change in future releases. See :hg:`help -e clonebundles` for more.

      Examples:

      - clone a remote repository to a new directory named hg/::

          @prog@ clone https://www.mercurial-scm.org/repo/hg/

      - create a lightweight local clone::

          @prog@ clone project/ project-feature/

      - clone from an absolute path on an ssh server (note double-slash)::

          @prog@ clone ssh://user@server//home/projects/alpha/

      - do a streaming clone while checking out a specified version::

          @prog@ clone --stream http://server/repo -u 1.5

      - create a repository without changesets after a particular revision::

          @prog@ clone -r 04e544 experimental/ good/

      - clone (and track) a particular named branch::

          @prog@ clone https://www.mercurial-scm.org/repo/hg/#stable

    See :hg:`help urls` for details on specifying URLs.

    Returns 0 on success.";

/// The command's help text.
pub fn doc() -> (r: &'static str)
    ensures
        r@ == CLONE_DOC@,
{
    CLONE_DOC
}

/// The command's usage line.
pub fn synopsis() -> (r: Option<&'static str>)
    ensures
        r matches Some(s) && s@ == "[OPTION]... SOURCE [DEST]"@,
{
    Some("[OPTION]... SOURCE [DEST]")
}

} // verus!
