//! The description of one labelled sandbox container.
//!
//! A sandbox is created detached and is never removed on exit, so it outlives
//! whoever asked for it and stays to be inventoried.

use crate::inventory::{trim_slashes, unslashed};
use crate::stamp::Stamp;
use crate::text::{
    blank, chars_of, clone_texts, concat3, concat4, concat5, group_views, is_blank, opt_view, views,
};
use crate::text_map::Labels;
use vstd::prelude::*;
use vstd::string::*;

verus! {

/// Where a bound workspace appears inside the sandbox.
pub const WORKSPACE_MOUNT_PATH: &'static str = "/workspace";

/// Why a sandbox cannot be created.
#[derive(Debug, PartialEq, Eq)]
pub enum SpawnError {
    BlankImage,
    BlankName,
    /// Docker would read a relative path as the name of a volume.
    RelativeWorkspace { path: String },
    /// Docker would create the directory as root.
    MissingWorkspace { path: String },
    RelativeWorkdir { path: String },
    /// The image is not there, and none is pulled.
    ImageAbsent { image: String },
    /// Docker refused the request.
    Docker { operation: String, message: String },
}

/// What a spawn error says.
pub open spec fn spawn_error_text(error: SpawnError) -> Seq<char> {
    match error {
        SpawnError::BlankImage => "image reference is empty"@,
        SpawnError::BlankName => "container name is empty"@,
        SpawnError::RelativeWorkspace { path } => "workspace "@ + path@
            + " is relative; Docker would read it as a volume name, so give an absolute host path"@,
        SpawnError::MissingWorkspace { path } => "workspace "@ + path@
            + " is not an existing directory; create it first, because Docker would otherwise create it as root"@,
        SpawnError::RelativeWorkdir { path } => "working directory "@ + path@
            + " is not absolute"@,
        SpawnError::ImageAbsent { image } => "image "@ + image@
            + " is not present locally and spawn never pulls; run `docker pull "@ + image@
            + "` first"@,
        SpawnError::Docker { operation, message } => "Docker "@ + operation@ + " failed: "@
            + message@,
    }
}

impl SpawnError {
    /// The error in words.
    pub fn message(&self) -> (words: String)
        ensures
            words@ == spawn_error_text(*self),
    {
        match self {
            SpawnError::BlankImage => "image reference is empty".to_owned(),
            SpawnError::BlankName => "container name is empty".to_owned(),
            SpawnError::RelativeWorkspace { path } => concat3(
                "workspace ",
                path.as_str(),
                " is relative; Docker would read it as a volume name, so give an absolute host path",
            ),
            SpawnError::MissingWorkspace { path } => concat3(
                "workspace ",
                path.as_str(),
                " is not an existing directory; create it first, because Docker would otherwise create it as root",
            ),
            SpawnError::RelativeWorkdir { path } => concat3(
                "working directory ",
                path.as_str(),
                " is not absolute",
            ),
            SpawnError::ImageAbsent { image } => concat5(
                "image ",
                image.as_str(),
                " is not present locally and spawn never pulls; run `docker pull ",
                image.as_str(),
                "` first",
            ),
            SpawnError::Docker { operation, message } => concat4(
                "Docker ",
                operation.as_str(),
                " failed: ",
                message.as_str(),
            ),
        }
    }
}

/// A checked description of the sandbox to create.
#[derive(Debug, PartialEq, Eq)]
pub struct SpawnRequest {
    image: String,
    name: Option<String>,
    workspace: Option<String>,
    workdir: Option<String>,
    command: Vec<String>,
    stamp: Stamp,
}

/// What a request says.
#[verifier::ext_equal]
pub struct SpawnView {
    pub image: Seq<char>,
    pub name: Option<Seq<char>>,
    pub workspace: Option<Seq<char>>,
    pub workdir: Option<Seq<char>>,
    pub command: Seq<Seq<char>>,
    pub stamp: Seq<(Seq<char>, Seq<char>)>,
}

impl View for SpawnRequest {
    type V = SpawnView;

    closed spec fn view(&self) -> SpawnView {
        SpawnView {
            image: self.image@,
            name: opt_view(self.name),
            workspace: opt_view(self.workspace),
            workdir: opt_view(self.workdir),
            command: views(self.command@),
            stamp: self.stamp@,
        }
    }
}

/// Whether a path starts at the root.
pub open spec fn absolute(path: Seq<char>) -> bool {
    path.len() > 0 && path[0] == '/'
}

fn is_absolute(path: &str) -> (found: bool)
    ensures
        found == absolute(path@),
{
    let characters = chars_of(path);
    characters.len() > 0 && characters[0] == '/'
}

/// A borrowed text by its view.
pub open spec fn opt_str_view(value: Option<&str>) -> Option<Seq<char>> {
    match value {
        Some(text) => Some(text@),
        None => None,
    }
}

fn own_text(value: Option<&str>) -> (owned: Option<String>)
    ensures
        opt_view(owned) == opt_str_view(value),
{
    match value {
        Some(text) => Some(text.to_owned()),
        None => None,
    }
}

/// What can be wrong with a description.
pub enum SpawnFault {
    BlankImage,
    BlankName,
    RelativeWorkspace(Seq<char>),
    MissingWorkspace(Seq<char>),
    RelativeWorkdir(Seq<char>),
}

/// The first thing that is wrong with a description.
pub open spec fn spawn_fault(
    image: Seq<char>,
    name: Option<Seq<char>>,
    workspace: Option<Seq<char>>,
    workspace_is_directory: bool,
    workdir: Option<Seq<char>>,
) -> Option<SpawnFault> {
    if is_blank(image) {
        Some(SpawnFault::BlankImage)
    } else if name is Some && is_blank(name->0) {
        Some(SpawnFault::BlankName)
    } else if workspace is Some && !absolute(workspace->0) {
        Some(SpawnFault::RelativeWorkspace(workspace->0))
    } else if workspace is Some && !workspace_is_directory {
        Some(SpawnFault::MissingWorkspace(workspace->0))
    } else if workdir is Some && !absolute(workdir->0) {
        Some(SpawnFault::RelativeWorkdir(workdir->0))
    } else {
        None
    }
}

/// Whether an error states a fault.
pub open spec fn states_fault(error: SpawnError, fault: SpawnFault) -> bool {
    match fault {
        SpawnFault::BlankImage => error is BlankImage,
        SpawnFault::BlankName => error is BlankName,
        SpawnFault::RelativeWorkspace(wanted) => error matches SpawnError::RelativeWorkspace { path }
            && path@ == wanted,
        SpawnFault::MissingWorkspace(wanted) => error matches SpawnError::MissingWorkspace { path }
            && path@ == wanted,
        SpawnFault::RelativeWorkdir(wanted) => error matches SpawnError::RelativeWorkdir { path }
            && path@ == wanted,
    }
}

/// Where the sandbox starts: where asked, else in the bound workspace.
pub open spec fn start_directory(request: SpawnView) -> Option<Seq<char>> {
    if request.workdir is Some {
        request.workdir
    } else if request.workspace is Some {
        Some(WORKSPACE_MOUNT_PATH@)
    } else {
        None
    }
}

/// How the host runs the container.
#[derive(Debug, PartialEq, Eq)]
pub struct HostBody {
    pub binds: Option<Vec<String>>,
    pub auto_remove: Option<bool>,
}

/// The container that Docker is asked to create.
#[derive(Debug, PartialEq, Eq)]
pub struct ContainerBody {
    pub image: Option<String>,
    pub cmd: Option<Vec<String>>,
    pub working_dir: Option<String>,
    pub labels: Option<Labels>,
    pub attach_stdin: Option<bool>,
    pub attach_stdout: Option<bool>,
    pub attach_stderr: Option<bool>,
    pub open_stdin: Option<bool>,
    pub tty: Option<bool>,
    pub host_config: Option<HostBody>,
}

/// A list of texts by its view.
pub open spec fn opt_texts(value: Option<Vec<String>>) -> Option<Seq<Seq<char>>> {
    match value {
        Some(items) => Some(views(items@)),
        None => None,
    }
}

/// The mounts of a workspace.
pub open spec fn workspace_binds(workspace: Option<Seq<char>>) -> Option<Seq<Seq<char>>> {
    match workspace {
        Some(path) => Some(seq![path + ":"@ + WORKSPACE_MOUNT_PATH@]),
        None => None,
    }
}

impl SpawnRequest {
    /// Checks a description. Whether the workspace is a directory is for the
    /// caller to look up.
    pub fn new(
        image: &str,
        name: Option<&str>,
        workspace: Option<&str>,
        workspace_is_directory: bool,
        workdir: Option<&str>,
        command: Vec<String>,
        stamp: Stamp,
    ) -> (outcome: Result<SpawnRequest, SpawnError>)
        ensures
            match spawn_fault(
                image@,
                opt_str_view(name),
                opt_str_view(workspace),
                workspace_is_directory,
                opt_str_view(workdir),
            ) {
                Some(fault) => outcome matches Err(error) && states_fault(error, fault),
                None => outcome matches Ok(request) && request@ == (SpawnView {
                    image: image@,
                    name: opt_str_view(name),
                    workspace: opt_str_view(workspace),
                    workdir: opt_str_view(workdir),
                    command: views(command@),
                    stamp: stamp@,
                }),
            },
    {
        if blank(image) {
            return Err(SpawnError::BlankImage);
        }
        if let Some(given) = name {
            if blank(given) {
                return Err(SpawnError::BlankName);
            }
        }
        if let Some(path) = workspace {
            if !is_absolute(path) {
                return Err(SpawnError::RelativeWorkspace { path: path.to_owned() });
            }
            if !workspace_is_directory {
                return Err(SpawnError::MissingWorkspace { path: path.to_owned() });
            }
        }
        if let Some(path) = workdir {
            if !is_absolute(path) {
                return Err(SpawnError::RelativeWorkdir { path: path.to_owned() });
            }
        }
        Ok(
            SpawnRequest {
                image: image.to_owned(),
                name: own_text(name),
                workspace: own_text(workspace),
                workdir: own_text(workdir),
                command,
                stamp,
            },
        )
    }

    /// The image that the sandbox is made from.
    pub fn image(&self) -> (image: &str)
        ensures
            image@ == self@.image,
    {
        self.image.as_str()
    }

    /// The name asked for.
    pub fn name(&self) -> (name: Option<&str>)
        ensures
            opt_str_view(name) == self@.name,
    {
        match &self.name {
            Some(text) => Some(text.as_str()),
            None => None,
        }
    }

    /// The host directory that is bound into the sandbox.
    pub fn workspace(&self) -> (path: Option<&str>)
        ensures
            opt_str_view(path) == self@.workspace,
    {
        match &self.workspace {
            Some(text) => Some(text.as_str()),
            None => None,
        }
    }

    /// The directory that the sandbox starts in.
    pub fn workdir(&self) -> (path: Option<&str>)
        ensures
            opt_str_view(path) == start_directory(self@),
    {
        match &self.workdir {
            Some(text) => Some(text.as_str()),
            None => match &self.workspace {
                Some(_) => Some(WORKSPACE_MOUNT_PATH),
                None => None,
            },
        }
    }

    /// The command that the sandbox runs; empty for the image's own.
    pub fn command(&self) -> (command: &Vec<String>)
        ensures
            views(command@) == self@.command,
    {
        &self.command
    }

    /// The labels that the sandbox is created with.
    pub fn stamp(&self) -> (stamp: &Stamp)
        ensures
            stamp@ == self@.stamp,
    {
        &self.stamp
    }

    /// The container that Docker is asked to create: labelled with exactly the
    /// stamp, attached to nothing, and never removed on its own.
    pub fn container_body(&self) -> (body: ContainerBody)
        ensures
            opt_view(body.image) == Some(self@.image),
            opt_texts(body.cmd) == if self@.command.len() == 0 {
                None
            } else {
                Some(self@.command)
            },
            opt_view(body.working_dir) == start_directory(self@),
            body.labels matches Some(labels) && labels@ == self@.stamp,
            body.attach_stdin == Some(false),
            body.attach_stdout == Some(false),
            body.attach_stderr == Some(false),
            body.open_stdin == Some(false),
            body.tty == Some(false),
            body.host_config matches Some(host) && host.auto_remove == Some(false) && opt_texts(
                host.binds,
            ) == workspace_binds(self@.workspace),
    {
        broadcast use group_views;

        let binds = match &self.workspace {
            Some(path) => {
                let mut list: Vec<String> = Vec::new();
                list.push(concat3(path.as_str(), ":", WORKSPACE_MOUNT_PATH));
                assert(views(list@) =~= seq![path@ + ":"@ + WORKSPACE_MOUNT_PATH@]);
                Some(list)
            },
            None => None,
        };
        let cmd = if self.command.len() == 0 {
            None
        } else {
            Some(clone_texts(&self.command))
        };
        ContainerBody {
            image: Some(self.image.clone()),
            cmd,
            working_dir: own_text(self.workdir()),
            labels: Some(self.stamp.labels().clone()),
            attach_stdin: Some(false),
            attach_stdout: Some(false),
            attach_stderr: Some(false),
            open_stdin: Some(false),
            tty: Some(false),
            host_config: Some(HostBody { binds, auto_remove: Some(false) }),
        }
    }
}

/// What Docker created.
#[derive(Debug, PartialEq, Eq)]
pub struct SpawnOutcome {
    pub id: String,
    pub name: String,
    pub warnings: Vec<String>,
}

/// Why a look at the image failed: only an answer of "not found" means that
/// the image is absent.
pub fn image_failure(image: &str, status: Option<u16>, message: String) -> (error: SpawnError)
    ensures
        if status == Some(404u16) {
            error matches SpawnError::ImageAbsent { image: absent } && absent@ == image@
        } else {
            error matches SpawnError::Docker { operation, message: words } && operation@
                == "image inspect"@ && words == message
        },
{
    if status == Some(404) {
        SpawnError::ImageAbsent { image: image.to_owned() }
    } else {
        SpawnError::Docker { operation: "image inspect".to_owned(), message }
    }
}

/// What was created, under the name that Docker settled on, else under its id.
pub fn spawn_outcome(id: String, settled_name: Option<String>, warnings: Vec<String>) -> (outcome:
    SpawnOutcome)
    ensures
        outcome.id == id,
        outcome.warnings == warnings,
        outcome.name@ == match settled_name {
            Some(name) => unslashed(name@),
            None => id@,
        },
{
    let name = match settled_name {
        Some(name) => trim_slashes(name.as_str()),
        None => id.clone(),
    };
    SpawnOutcome { id, name, warnings }
}

} // verus!
