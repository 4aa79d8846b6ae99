use vstd::prelude::*;

verus! {

/// The project file of a build: the project, and the C libraries it links against.
#[derive(Debug)]
pub struct Config {
    pub project: Project,
    pub clibs: Option<Clibs>,
}

#[derive(Debug)]
pub struct Project {
    pub name: String,
    pub author: String,
    pub exec_entry: String,
}

#[derive(Debug)]
pub struct Clibs {
    pub clibs: Vec<Clib>,
}

/// A C library: its name, the path of its archive, and its flags.
#[derive(Debug)]
pub struct Clib {
    pub name: String,
    pub path: String,
    pub flags: Vec<String>,
}

/// The paths of the libraries to link, in the order of the project file.
pub open spec fn lib_paths(c: Config) -> Seq<Seq<char>> {
    match c.clibs {
        Some(l) => l.clibs@.map_values(|x: Clib| x.path@),
        None => Seq::empty(),
    }
}

/// The paths of the libraries a build links against.
pub fn libs_of(config: &Config) -> (r: Vec<String>)
    ensures
        r@.map_values(|s: String| s@) == lib_paths(*config),
{
    let mut libs: Vec<String> = Vec::new();
    match &config.clibs {
        Some(l) => {
            let mut i: usize = 0;
            while i < l.clibs.len()
                invariant
                    config.clibs == Some(*l),
                    i <= l.clibs@.len(),
                    libs@.len() == i,
                    forall|j: int| 0 <= j < i ==> (#[trigger] libs@[j])@ == l.clibs@[j].path@,
                decreases l.clibs.len() - i,
            {
                libs.push(l.clibs[i].path.clone());
                i = i + 1;
            }
            proof {
                assert(libs@.map_values(|s: String| s@) =~= lib_paths(*config));
            }
        },
        None => {
            proof {
                assert(libs@.map_values(|s: String| s@) =~= lib_paths(*config));
            }
        },
    }
    libs
}

/// The command line: what to do.
#[derive(Debug)]
pub struct Args {
    pub subcmd: SubCommand,
}

/// The commands: build the project, build and run it, or create a new one.
#[derive(Debug)]
pub enum SubCommand {
    Build,
    Run,
    New { project_name: String },
}

} // verus!
