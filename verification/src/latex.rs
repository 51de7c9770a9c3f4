//! LaTeX engines on the host, and the compilation of a document through latexmk.
use crate::error::AppError;
use crate::text::{chars_of, concat, content, contents, same};
use vstd::prelude::*;

verus! {

/// A detected LaTeX rendering engine.
#[derive(Debug, Clone, PartialEq, Eq)]
pub struct LatexEngine {
    pub id: String,
    pub label: String,
    pub path: Option<String>,
}

/// A TeX Live tree, and the binary directories that it ships.
#[derive(Debug, Clone, PartialEq, Eq)]
pub struct TexTree {
    pub path: String,
    pub universal_darwin: bool,
    pub arm64_darwin: bool,
    pub x86_64_darwin: bool,
}

/// The binary directories of a TeX Live tree.
pub open spec fn tree_dirs(tree: TexTree) -> Seq<Seq<char>> {
    let universal = if tree.universal_darwin {
        seq![tree.path@ + "/bin/universal-darwin"@]
    } else {
        Seq::empty()
    };
    let arm = if tree.arm64_darwin {
        seq![tree.path@ + "/bin/arm64-darwin"@]
    } else {
        Seq::empty()
    };
    let x86 = if tree.x86_64_darwin {
        seq![tree.path@ + "/bin/x86_64-darwin"@]
    } else {
        Seq::empty()
    };
    universal + arm + x86
}

/// The binary directories of all trees, in the order of the trees.
pub open spec fn all_tree_dirs(trees: Seq<TexTree>) -> Seq<Seq<char>>
    decreases trees.len(),
{
    if trees.len() == 0 {
        Seq::empty()
    } else {
        all_tree_dirs(trees.drop_last()) + tree_dirs(trees.last())
    }
}

/// The directories that are searched in addition to `$PATH`.
pub open spec fn extra_dirs(trees: Seq<TexTree>) -> Seq<Seq<char>> {
    seq!["/Library/TeX/texbin"@] + all_tree_dirs(trees) + seq![
        "/usr/bin"@,
        "/usr/local/bin"@,
        "/opt/homebrew/bin"@,
        "/usr/local/bin"@,
    ]
}

/// Appends `dir`, followed by `tail`, to `out`.
fn push_dir(out: &mut Vec<String>, dir: &str, tail: &str)
    ensures
        contents(final(out)@) == contents(old(out)@).push(dir@ + tail@),
{
    let ghost before = out@;
    out.push(concat(dir, tail));
    assert(contents(out@) =~= contents(before).push(dir@ + tail@));
}

/// Appends the binary directories of a TeX Live tree to `out`.
fn push_tree_dirs(out: &mut Vec<String>, tree: &TexTree)
    ensures
        contents(final(out)@) == contents(old(out)@) + tree_dirs(*tree),
{
    let ghost start = contents(out@);
    if tree.universal_darwin {
        push_dir(out, tree.path.as_str(), "/bin/universal-darwin");
    }
    if tree.arm64_darwin {
        push_dir(out, tree.path.as_str(), "/bin/arm64-darwin");
    }
    if tree.x86_64_darwin {
        push_dir(out, tree.path.as_str(), "/bin/x86_64-darwin");
    }
    assert(contents(out@) =~= start + tree_dirs(*tree));
}

/// Directories that ship TeX Live binaries on a default install. Searched in
/// addition to `$PATH` so engines like MacTeX (which install to
/// `/Library/TeX/texbin` but do NOT put that on user `$PATH` by default) still
/// surface to the picker. `trees` are the entries of `/usr/local/texlive`.
pub fn tex_extra_paths(trees: &Vec<TexTree>) -> (r: Vec<String>)
    ensures
        contents(r@) == extra_dirs(trees@),
{
    let mut out: Vec<String> = Vec::new();
    // macOS: MacTeX default symlink (covers the active TeX Live year).
    out.push("/Library/TeX/texbin".to_owned());
    let ghost first = seq!["/Library/TeX/texbin"@];
    assert(trees@.take(0) =~= Seq::<TexTree>::empty());
    assert(contents(out@) =~= first + all_tree_dirs(trees@.take(0)));
    // macOS: older MacTeX releases expose a year-suffixed tree.
    let mut i: usize = 0;
    while i < trees.len()
        invariant
            i <= trees.len(),
            first == seq!["/Library/TeX/texbin"@],
            contents(out@) == first + all_tree_dirs(trees@.take(i as int)),
        decreases trees.len() - i,
    {
        push_tree_dirs(&mut out, &trees[i]);
        assert(trees@.take(i + 1).drop_last() =~= trees@.take(i as int));
        assert(contents(out@) =~= first + all_tree_dirs(trees@.take(i + 1)));
        i = i + 1;
    }
    assert(trees@.take(i as int) =~= trees@);
    let ghost before = out@;
    // Linux / cross-platform fallbacks.
    out.push("/usr/bin".to_owned());
    out.push("/usr/local/bin".to_owned());
    // Common Homebrew locations on Apple Silicon / Intel.
    out.push("/opt/homebrew/bin".to_owned());
    out.push("/usr/local/bin".to_owned());
    assert(contents(out@) =~= contents(before) + seq![
        "/usr/bin"@,
        "/usr/local/bin"@,
        "/opt/homebrew/bin"@,
        "/usr/local/bin"@,
    ]);
    out
}

/// Where `command` is looked for in `dirs`.
pub fn engine_candidates(dirs: &Vec<String>, command: &str) -> (r: Vec<String>)
    ensures
        r@.len() == dirs@.len(),
        forall|i: int| 0 <= i < r@.len() ==> #[trigger] r@[i]@ == dirs@[i]@ + "/"@ + command@,
{
    let mut out: Vec<String> = Vec::new();
    let mut i: usize = 0;
    while i < dirs.len()
        invariant
            i <= dirs.len(),
            out@.len() == i,
            forall|j: int| 0 <= j < i ==> #[trigger] out@[j]@ == dirs@[j]@ + "/"@ + command@,
        decreases dirs.len() - i,
    {
        let mut path = concat(dirs[i].as_str(), "/");
        path.append(command);
        out.push(path);
        i = i + 1;
    }
    out
}

/// A place where a command was looked for. `P` is what a path is held as.
#[derive(Debug, Clone, PartialEq, Eq)]
pub struct Probe<P> {
    pub path: P,
    pub is_file: bool,
}

/// The first place that holds a file.
pub open spec fn first_file<P>(probes: Seq<Probe<P>>) -> Option<P>
    decreases probes.len(),
{
    if probes.len() == 0 {
        None
    } else if probes[0].is_file {
        Some(probes[0].path)
    } else {
        first_file(probes.skip(1))
    }
}

/// Resolve a command by combining `$PATH` with platform-specific TeX locations: `on_path` is
/// where `$PATH` has it, `probes` are the other places, in the order of their precedence.
pub fn resolve_engine<P>(on_path: Option<P>, probes: Vec<Probe<P>>) -> (r: Option<P>)
    ensures
        r == match on_path {
            Some(path) => Some(path),
            None => first_file(probes@),
        },
{
    if on_path.is_some() {
        return on_path;
    }
    let mut places = probes;
    let mut i: usize = 0;
    assert(probes@.skip(0) =~= probes@);
    while i < places.len()
        invariant
            i <= places.len(),
            on_path is None,
            places == probes,
            first_file(probes@) == first_file(probes@.skip(i as int)),
        decreases places.len() - i,
    {
        assert(probes@.skip(i as int).skip(1) =~= probes@.skip(i + 1));
        if places[i].is_file {
            let found = places.swap_remove(i);
            return Some(found.path);
        }
        i = i + 1;
    }
    None
}

/// The latexmk flag of a picker engine.
pub open spec fn engine_flag(engine: Seq<char>) -> Option<Seq<char>> {
    if engine == "pdflatex"@ {
        Some("-pdf"@)
    } else if engine == "xelatex"@ {
        Some("-xelatex"@)
    } else if engine == "lualatex"@ {
        Some("-lualatex"@)
    } else {
        None
    }
}

/// Map a picker engine id to its latexmk engine flag.
pub fn latexmk_engine_flag(engine: &str) -> (r: Option<&'static str>)
    ensures
        match r {
            Some(flag) => engine_flag(engine@) == Some(flag@),
            None => engine_flag(engine@) is None,
        },
{
    if same(engine, "pdflatex") {
        Some("-pdf")
    } else if same(engine, "xelatex") {
        Some("-xelatex")
    } else if same(engine, "lualatex") {
        Some("-lualatex")
    } else {
        None
    }
}

/// `LatexEngine` over sequences of characters.
pub struct EngineEntry {
    pub id: Seq<char>,
    pub label: Seq<char>,
    pub path: Option<Seq<char>>,
}

impl View for LatexEngine {
    type V = EngineEntry;

    open spec fn view(&self) -> EngineEntry {
        EngineEntry { id: self.id@, label: self.label@, path: content(self.path) }
    }
}

/// The picker entries of engines.
pub open spec fn entries(engines: Seq<LatexEngine>) -> Seq<EngineEntry> {
    engines.map_values(|e: LatexEngine| e@)
}

/// Which engine binaries exist on the host.
#[derive(Debug, Clone, Copy, PartialEq, Eq)]
pub struct EnginesFound {
    pub pdflatex: bool,
    pub xelatex: bool,
    pub lualatex: bool,
}

/// The picker entry of an engine, where its binary exists. What is spawned for every entry is
/// latexmk.
pub open spec fn entry_if(found: bool, id: Seq<char>, label: Seq<char>, latexmk: Seq<char>) -> Seq<
    EngineEntry,
> {
    if found {
        seq![EngineEntry { id, label, path: Some(latexmk) }]
    } else {
        Seq::empty()
    }
}

/// The engines that can compile: none without latexmk, and else those whose binary exists.
pub open spec fn offered(latexmk: Option<Seq<char>>, found: EnginesFound) -> Seq<EngineEntry> {
    match latexmk {
        None => Seq::empty(),
        Some(path) => entry_if(found.pdflatex, "pdflatex"@, "PDFLaTeX"@, path) + entry_if(
            found.xelatex,
            "xelatex"@,
            "XeLaTeX"@,
            path,
        ) + entry_if(found.lualatex, "lualatex"@, "LuaLaTeX"@, path),
    }
}

/// Appends the picker entry of an engine to `out`.
fn push_engine(out: &mut Vec<LatexEngine>, found: bool, id: &str, label: &str, latexmk: &str)
    ensures
        entries(final(out)@) == entries(old(out)@) + entry_if(found, id@, label@, latexmk@),
{
    let ghost before = out@;
    if found {
        out.push(
            LatexEngine {
                id: id.to_owned(),
                label: label.to_owned(),
                path: Some(latexmk.to_owned()),
            },
        );
    }
    assert(entries(out@) =~= entries(before) + entry_if(found, id@, label@, latexmk@));
}

/// Detect available LaTeX engines on the system.
/// Returns the engines that can actually compile: latexmk (the orchestrator)
/// and the engine binary must both exist. Engines not present on the host are
/// omitted (not greyed out); without latexmk the list is empty and the compile
/// button stays hidden.
pub fn detect_latex_engines(latexmk: Option<String>, found: EnginesFound) -> (r: Vec<LatexEngine>)
    ensures
        entries(r@) == offered(content(latexmk), found),
{
    let mut out: Vec<LatexEngine> = Vec::new();
    assert(entries(out@) =~= Seq::<EngineEntry>::empty());
    if let Some(path) = &latexmk {
        push_engine(&mut out, found.pdflatex, "pdflatex", "PDFLaTeX", path.as_str());
        push_engine(&mut out, found.xelatex, "xelatex", "XeLaTeX", path.as_str());
        push_engine(&mut out, found.lualatex, "lualatex", "LuaLaTeX", path.as_str());
        assert(entries(out@) =~= offered(content(latexmk), found));
    }
    out
}

/// Every engine that is offered can be compiled with.
pub proof fn law_offered_engines_have_a_flag(latexmk: Option<Seq<char>>, found: EnginesFound)
    ensures
        forall|i: int| 0 <= i < offered(latexmk, found).len() ==> engine_flag(
            #[trigger] offered(latexmk, found)[i].id,
        ) is Some,
        offered(latexmk, found).len() > 0 ==> latexmk is Some,
{
}

/// Result of a TeX compilation.
#[derive(Debug, Clone, PartialEq, Eq)]
pub struct CompileResult {
    pub ok: bool,
    pub pdf_path: Option<String>,
    pub log: String,
}

/// What is known of the path of a document.
#[derive(Debug, Clone, PartialEq, Eq)]
pub struct TexFile {
    pub exists: bool,
    pub display: String,
    pub parent: Option<String>,
    pub file_name: Option<String>,
    pub file_stem: Option<String>,
}

/// Where latexmk was found.
#[derive(Debug, Clone, PartialEq, Eq)]
pub struct Latexmk {
    pub path: String,
    pub parent: Option<String>,
}

/// How latexmk is run.
#[derive(Debug, Clone, PartialEq, Eq)]
pub struct CompileCommand {
    pub program: String,
    pub cwd: String,
    pub args: Vec<String>,
    /// What stands in front of the inherited `$PATH`.
    pub path_prefix: Option<String>,
}

/// Why a document cannot be compiled.
pub open spec fn compile_refusal(tex: TexFile, engine: Seq<char>, latexmk: Option<Latexmk>) -> Option<
    Seq<char>,
> {
    if !tex.exists {
        Some("tex file not found: "@ + tex.display@)
    } else if tex.parent is None {
        Some("cannot determine parent directory"@)
    } else if tex.file_name is None {
        Some("invalid tex file name"@)
    } else if engine_flag(engine) is None {
        Some("unknown latex engine: "@ + engine)
    } else if latexmk is None {
        Some("latexmk not found on this system"@)
    } else {
        None
    }
}

/// The command that compiles a document. latexmk runs the selected engine, bibtex/biber, and
/// reruns automatically until cross-references and citations settle. It locates them via the
/// child `$PATH`, so its own directory stands in front of the inherited one.
pub fn compile_command(tex: &TexFile, engine: &str, latexmk: Option<Latexmk>) -> (r: Result<
    CompileCommand,
    AppError,
>)
    ensures
        match compile_refusal(*tex, engine@, latexmk) {
            Some(message) => r matches Err(e) && e@ == message,
            None => {
                &&& r matches Ok(command)
                &&& command.program@ == latexmk->0.path@
                &&& command.cwd@ == tex.parent->0@
                &&& contents(command.args@) == seq![
                    engine_flag(engine@)->0,
                    "-interaction=nonstopmode"@,
                    "-halt-on-error"@,
                    "-outdir="@ + tex.parent->0@,
                    tex.file_name->0@,
                ]
                &&& content(command.path_prefix) == match latexmk->0.parent {
                    Some(dir) => Some(dir@ + ":"@),
                    None => None,
                }
            },
        },
{
    if !tex.exists {
        return Err(
            AppError { message: concat("tex file not found: ", tex.display.as_str()) },
        );
    }
    let cwd = match &tex.parent {
        Some(dir) => dir.clone(),
        None => return Err(AppError::message("cannot determine parent directory")),
    };
    let basename = match &tex.file_name {
        Some(name) => name.clone(),
        None => return Err(AppError::message("invalid tex file name")),
    };
    let flag = match latexmk_engine_flag(engine) {
        Some(flag) => flag,
        None => return Err(AppError { message: concat("unknown latex engine: ", engine) }),
    };
    let found = match latexmk {
        Some(found) => found,
        None => return Err(AppError::message("latexmk not found on this system")),
    };
    let mut args: Vec<String> = Vec::new();
    args.push(flag.to_owned());
    args.push("-interaction=nonstopmode".to_owned());
    args.push("-halt-on-error".to_owned());
    args.push(concat("-outdir=", cwd.as_str()));
    args.push(basename);
    assert(contents(args@) =~= seq![
        engine_flag(engine@)->0,
        "-interaction=nonstopmode"@,
        "-halt-on-error"@,
        "-outdir="@ + tex.parent->0@,
        tex.file_name->0@,
    ]);
    let path_prefix = match &found.parent {
        Some(dir) => Some(concat(dir.as_str(), ":")),
        None => None,
    };
    Ok(CompileCommand { program: found.path, cwd, args, path_prefix })
}

/// The error of a command that could not be run.
pub fn run_failure(engine: &str, cause: &str) -> (r: AppError)
    ensures
        r@ == "failed to run "@ + engine@ + ": "@ + cause@,
{
    let mut text = concat("failed to run ", engine);
    text.append(": ");
    text.append(cause);
    AppError { message: text }
}

/// A name inside a directory.
pub open spec fn inside(dir: Seq<char>, name: Seq<char>) -> Seq<char> {
    if dir.len() == 0 || dir.last() == '/' {
        dir + name
    } else {
        dir.push('/') + name
    }
}

/// Where the compiled document appears: next to its source, under its stem.
pub fn pdf_output_path(cwd: &str, file_stem: Option<&str>) -> (r: String)
    ensures
        r@ == inside(
            cwd@,
            match file_stem {
                Some(stem) => stem@,
                None => "output"@,
            } + ".pdf"@,
        ),
{
    let stem = match file_stem {
        Some(stem) => stem,
        None => "output",
    };
    let name = concat(stem, ".pdf");
    let cs = chars_of(cwd);
    let n: usize = cs.len();
    let mut dir = cwd.to_owned();
    if n != 0 && cs[n - 1] != '/' {
        dir.push('/');
    }
    concat(dir.as_str(), name.as_str())
}

/// The result of a compilation that ran. It is a success where latexmk succeeded and the PDF
/// exists; only then is the PDF named.
pub fn compile_result(
    success: bool,
    pdf_exists: bool,
    pdf_path: String,
    stdout: &str,
    stderr: &str,
) -> (r: CompileResult)
    ensures
        r.ok == (success && pdf_exists),
        r.ok ==> r.pdf_path == Some(pdf_path),
        !r.ok ==> r.pdf_path is None,
        r.log@ == stdout@ + "\n"@ + stderr@,
{
    let ok = success && pdf_exists;
    let mut log = concat(stdout, "\n");
    log.append(stderr);
    CompileResult {
        ok,
        pdf_path: if ok {
            Some(pdf_path)
        } else {
            None
        },
        log,
    }
}

} // verus!
