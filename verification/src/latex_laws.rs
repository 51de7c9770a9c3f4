//! Which LaTeX engines are found and how a document is compiled, said of what was looked at on
//! the host.
use crate::error::AppError;
use crate::latex::{
    all_tree_dirs, compile_command, compile_result, detect_latex_engines, engine_candidates,
    entries, extra_dirs, first_file, latexmk_engine_flag, pdf_output_path, resolve_engine,
    run_failure, tex_extra_paths, tree_dirs, CompileCommand, CompileResult, EnginesFound,
    LatexEngine, Latexmk, Probe, TexFile, TexTree,
};
use crate::text::contents;
use vstd::prelude::*;

verus! {

proof fn lemma_first_file<P>(probes: Seq<Probe<P>>)
    ensures
        match first_file(probes) {
            Some(path) => exists|i: int|
                {
                    &&& 0 <= i < probes.len()
                    &&& (#[trigger] probes[i]).is_file
                    &&& probes[i].path == path
                    &&& forall|j: int| 0 <= j < i ==> !(#[trigger] probes[j]).is_file
                },
            None => forall|j: int| 0 <= j < probes.len() ==> !(#[trigger] probes[j]).is_file,
        },
    decreases probes.len(),
{
    if probes.len() > 0 && !probes[0].is_file {
        let rest = probes.skip(1);
        lemma_first_file(rest);
        if first_file(rest) is Some {
            let i = choose|i: int|
                {
                    &&& 0 <= i < rest.len()
                    &&& (#[trigger] rest[i]).is_file
                    &&& rest[i].path == first_file(rest)->Some_0
                    &&& forall|j: int| 0 <= j < i ==> !(#[trigger] rest[j]).is_file
                };
            assert(probes[i + 1] == rest[i]);
            assert forall|j: int| 0 <= j < i + 1 implies !(#[trigger] probes[j]).is_file by {
                if j > 0 {
                    assert(rest[j - 1] == probes[j]);
                }
            }
        } else {
            assert forall|j: int| 0 <= j < probes.len() implies !(#[trigger] probes[j]).is_file by {
                if j > 0 {
                    assert(rest[j - 1] == probes[j]);
                }
            }
        }
    } else if probes.len() > 0 {
        assert(probes[0].is_file);
    }
}

/// A command is where `$PATH` has it, whatever else there is. Where `$PATH` has it not, it is at
/// the first of the other places that holds a file, the very first included. It is not found
/// exactly where none of them holds a file.
pub proof fn law_engine_is_at_the_first_place<P>(
    on_path: Option<P>,
    probes: Vec<Probe<P>>,
    r: Option<P>,
    i: int,
)
    requires
        call_ensures(resolve_engine::<P>, (on_path, probes), r),
        0 <= i < probes@.len(),
    ensures
        on_path is Some ==> r == on_path,
        on_path is None && probes@[i].is_file && (forall|j: int|
            0 <= j < i ==> !(#[trigger] probes@[j]).is_file) ==> r == Some(probes@[i].path),
        on_path is None && r is None ==> !probes@[i].is_file,
{
    lemma_first_file(probes@);
}

/// A command is not found where neither `$PATH` nor any other place has it.
pub proof fn law_engine_is_nowhere_else<P>(on_path: Option<P>, probes: Vec<Probe<P>>, r: Option<P>)
    requires
        call_ensures(resolve_engine::<P>, (on_path, probes), r),
        on_path is None,
    ensures
        r is Some <==> exists|i: int| 0 <= i < probes@.len() && (#[trigger] probes@[i]).is_file,
        r matches Some(path) ==> exists|i: int|
            0 <= i < probes@.len() && (#[trigger] probes@[i]).is_file && probes@[i].path == path,
{
    lemma_first_file(probes@);
}

/// Without TeX Live trees, MacTeX comes first, and the directories of other systems behind it. A
/// command is looked for in each of the directories, in their order.
pub proof fn law_search_without_trees(
    trees: Vec<TexTree>,
    dirs: Vec<String>,
    command: &str,
    places: Vec<String>,
)
    requires
        call_ensures(tex_extra_paths, (&trees,), dirs),
        call_ensures(engine_candidates, (&dirs, command), places),
    ensures
        dirs@.len() >= 5,
        dirs@[0]@ == "/Library/TeX/texbin"@,
        dirs@[dirs@.len() - 4]@ == "/usr/bin"@,
        dirs@[dirs@.len() - 3]@ == "/usr/local/bin"@,
        dirs@[dirs@.len() - 2]@ == "/opt/homebrew/bin"@,
        dirs@[dirs@.len() - 1]@ == "/usr/local/bin"@,
        trees@.len() == 0 ==> dirs@.len() == 5,
        places@.len() == dirs@.len(),
        forall|i: int| 0 <= i < dirs@.len() ==> #[trigger] places@[i]@ == dirs@[i]@ + seq!['/']
            + command@,
{
    let all = contents(dirs@);
    let n = all.len();
    assert(all == extra_dirs(trees@));
    assert(all[0] == dirs@[0]@);
    assert(all[n - 4] == dirs@[n - 4]@);
    assert(all[n - 3] == dirs@[n - 3]@);
    assert(all[n - 2] == dirs@[n - 2]@);
    assert(all[n - 1] == dirs@[n - 1]@);
    reveal_strlit("/");
    assert("/"@ =~= seq!['/']);
}

/// One TeX Live tree more adds exactly the binary directories that it has, behind those of the
/// trees in front of it and in front of the directories of other systems.
pub proof fn law_search_in_trees(
    trees: Vec<TexTree>,
    more: Vec<TexTree>,
    dirs: Vec<String>,
    now: Vec<String>,
)
    requires
        call_ensures(tex_extra_paths, (&trees,), dirs),
        call_ensures(tex_extra_paths, (&more,), now),
        more@.len() == trees@.len() + 1,
        more@.drop_last() == trees@,
    ensures
        ({
            let tree = more@.last();
            let k = dirs@.len() - 4;
            let u: int = if tree.universal_darwin { 1 } else { 0 };
            let a: int = if tree.arm64_darwin { 1 } else { 0 };
            let x: int = if tree.x86_64_darwin { 1 } else { 0 };
            &&& now@.len() == dirs@.len() + u + a + x
            &&& forall|i: int| 0 <= i < k ==> (#[trigger] now@[i])@ == dirs@[i]@
            &&& u == 1 ==> now@[k]@ == tree.path@ + "/bin/universal-darwin"@
            &&& a == 1 ==> now@[k + u]@ == tree.path@ + "/bin/arm64-darwin"@
            &&& x == 1 ==> now@[k + u + a]@ == tree.path@ + "/bin/x86_64-darwin"@
        }),
{
    let tree = more@.last();
    let before = contents(dirs@);
    let after = contents(now@);
    let k = dirs@.len() - 4;
    let added = tree_dirs(tree);
    assert(all_tree_dirs(more@) == all_tree_dirs(trees@) + added);
    assert(before == extra_dirs(trees@) && after == extra_dirs(more@));
    assert(before.len() == dirs@.len() && after.len() == now@.len());
    assert(k == 1 + all_tree_dirs(trees@).len());
    assert(after.len() == before.len() + added.len());
    assert forall|i: int| 0 <= i < k implies (#[trigger] now@[i])@ == dirs@[i]@ by {
        assert(after[i] == now@[i]@);
        assert(before[i] == dirs@[i]@);
        assert(after[i] == before[i]);
    }
    assert forall|i: int| 0 <= i < added.len() implies #[trigger] added[i] == now@[k + i]@ by {
        assert(after[k + i] == now@[k + i]@);
    }
    let u: int = if tree.universal_darwin {
        1
    } else {
        0
    };
    let a: int = if tree.arm64_darwin {
        1
    } else {
        0
    };
    if u == 1 {
        assert(added[0] == tree.path@ + "/bin/universal-darwin"@);
    }
    if a == 1 {
        assert(added[u] == tree.path@ + "/bin/arm64-darwin"@);
    }
    if tree.x86_64_darwin {
        assert(added[u + a] == tree.path@ + "/bin/x86_64-darwin"@);
    }
}

/// Three engines have a flag, each its own, and no other has one.
pub proof fn law_engine_flags(engine: &str, r: Option<&'static str>)
    requires
        call_ensures(latexmk_engine_flag, (engine,), r),
    ensures
        engine@ == "pdflatex"@ ==> (r matches Some(flag) && flag@ == "-pdf"@),
        engine@ == "xelatex"@ ==> (r matches Some(flag) && flag@ == "-xelatex"@),
        engine@ == "lualatex"@ ==> (r matches Some(flag) && flag@ == "-lualatex"@),
        engine@ != "pdflatex"@ && engine@ != "xelatex"@ && engine@ != "lualatex"@ ==> r is None,
{
    reveal_strlit("pdflatex");
    reveal_strlit("xelatex");
    reveal_strlit("lualatex");
    assert("pdflatex"@.len() == 8 && "xelatex"@.len() == 7 && "lualatex"@.len() == 8);
    assert("pdflatex"@[0] == 'p' && "lualatex"@[0] == 'l');
}

/// The engine is offered under this id and label.
pub open spec fn is_offered(
    engines: Seq<LatexEngine>,
    id: Seq<char>,
    label: Seq<char>,
    latexmk: Seq<char>,
) -> bool {
    exists|i: int|
        {
            &&& 0 <= i < engines.len()
            &&& (#[trigger] engines[i]).id@ == id
            &&& engines[i].label@ == label
            &&& engines[i].path matches Some(path)
            &&& path@ == latexmk
        }
}

/// Without latexmk nothing is offered. With it, each engine whose binary exists is offered, under
/// its own label and with latexmk as what is spawned, and there are no other entries.
pub proof fn law_offered_engines(
    latexmk: Option<String>,
    found: EnginesFound,
    r: Vec<LatexEngine>,
)
    requires
        call_ensures(detect_latex_engines, (latexmk, found), r),
    ensures
        latexmk is None ==> r@.len() == 0,
        latexmk matches Some(path) ==> {
            let p: int = if found.pdflatex { 1 } else { 0 };
            let x: int = if found.xelatex { 1 } else { 0 };
            let l: int = if found.lualatex { 1 } else { 0 };
            &&& r@.len() == p + x + l
            &&& found.pdflatex ==> is_offered(r@, "pdflatex"@, "PDFLaTeX"@, path@)
            &&& found.xelatex ==> is_offered(r@, "xelatex"@, "XeLaTeX"@, path@)
            &&& found.lualatex ==> is_offered(r@, "lualatex"@, "LuaLaTeX"@, path@)
            &&& found.pdflatex ==> r@[0].id@ == "pdflatex"@
            &&& found.lualatex ==> r@[r@.len() - 1].id@ == "lualatex"@
        },
{
    let all = entries(r@);
    assert forall|i: int| 0 <= i < all.len() implies #[trigger] all[i] == r@[i]@ by {}
    if let Some(path) = latexmk {
        let p: int = if found.pdflatex {
            1
        } else {
            0
        };
        let x: int = if found.xelatex {
            1
        } else {
            0
        };
        if found.pdflatex {
            assert(all[0] == r@[0]@);
        }
        if found.xelatex {
            assert(all[p] == r@[p]@);
            assert(r@[p].id@ == "xelatex"@);
        }
        if found.lualatex {
            assert(all[p + x] == r@[p + x]@);
            assert(r@[p + x].id@ == "lualatex"@);
        }
    }
}

/// A document is refused for the first thing that is missing: the file, its directory, its name,
/// a known engine, latexmk. Where nothing is missing, latexmk is run in the directory of the
/// document, on its name, with the flag of the engine, and puts the PDF next to it.
pub proof fn law_compile_command(
    tex: TexFile,
    engine: &str,
    latexmk: Option<Latexmk>,
    flag: Option<&'static str>,
    r: Result<CompileCommand, AppError>,
)
    requires
        call_ensures(compile_command, (&tex, engine, latexmk), r),
        call_ensures(latexmk_engine_flag, (engine,), flag),
    ensures
        r is Ok <==> tex.exists && tex.parent is Some && tex.file_name is Some && flag is Some
            && latexmk is Some,
        r matches Err(e) ==> {
            &&& !tex.exists ==> e@ == "tex file not found: "@ + tex.display@
            &&& tex.exists && tex.parent is None ==> e@ == "cannot determine parent directory"@
            &&& tex.exists && tex.parent is Some && tex.file_name is None ==> e@
                == "invalid tex file name"@
            &&& tex.exists && tex.parent is Some && tex.file_name is Some && flag is None ==> e@
                == "unknown latex engine: "@ + engine@
            &&& tex.exists && tex.parent is Some && tex.file_name is Some && flag is Some ==> e@
                == "latexmk not found on this system"@
        },
        r matches Ok(command) ==> {
            &&& command.program@ == latexmk->Some_0.path@
            &&& command.cwd@ == tex.parent->Some_0@
            &&& command.args@.len() == 5
            &&& command.args@[0]@ == flag->Some_0@
            &&& command.args@[1]@ == "-interaction=nonstopmode"@
            &&& command.args@[2]@ == "-halt-on-error"@
            &&& command.args@[3]@ == "-outdir="@ + tex.parent->Some_0@
            &&& command.args@[4]@ == tex.file_name->Some_0@
            &&& latexmk->Some_0.parent matches Some(dir) ==> (command.path_prefix matches Some(p)
                && p@ == dir@ + ":"@)
            &&& latexmk->Some_0.parent is None ==> command.path_prefix is None
        },
{
    if let Ok(command) = r {
        let args = contents(command.args@);
        assert(args == seq![
            flag->Some_0@,
            "-interaction=nonstopmode"@,
            "-halt-on-error"@,
            "-outdir="@ + tex.parent->Some_0@,
            tex.file_name->Some_0@,
        ]);
        assert(args.len() == 5);
        assert(args[0] == command.args@[0]@);
        assert(args[1] == command.args@[1]@);
        assert(args[2] == command.args@[2]@);
        assert(args[3] == command.args@[3]@);
        assert(args[4] == command.args@[4]@);
    }
}

/// The PDF stands in the directory of the document, under its stem, with one slash between.
pub proof fn law_pdf_path(cwd: &str, stem: Option<&str>, r: String)
    requires
        call_ensures(pdf_output_path, (cwd, stem), r),
    ensures
        ({
            let name = match stem {
                Some(s) => s@,
                None => "output"@,
            } + ".pdf"@;
            &&& cwd@.len() > 0 && cwd@.last() != '/' ==> r@ == cwd@ + seq!['/'] + name
            &&& cwd@.len() == 0 || cwd@.last() == '/' ==> r@ == cwd@ + name
        }),
{
    assert(cwd@.push('/') =~= cwd@ + seq!['/']);
}

/// A compilation is a success exactly where latexmk succeeded and the PDF exists, and only a
/// success names the PDF. The log holds all that was written, the errors last.
pub proof fn law_compile_result(
    success: bool,
    exists_pdf: bool,
    path: String,
    stdout: &str,
    stderr: &str,
    r: CompileResult,
    engine: &str,
    failure: AppError,
)
    requires
        call_ensures(compile_result, (success, exists_pdf, path, stdout, stderr), r),
        call_ensures(run_failure, (engine, stderr), failure),
    ensures
        r.ok <==> success && exists_pdf,
        r.pdf_path is Some <==> r.ok,
        r.pdf_path matches Some(p) ==> p@ == path@,
        r.log@ == stdout@ + seq!['\n'] + stderr@,
        failure@ == "failed to run "@ + engine@ + ": "@ + stderr@,
{
    reveal_strlit("\n");
    assert("\n"@ =~= seq!['\n']);
}

} // verus!
