use agentero::latex::{
    compile_command, compile_result, detect_latex_engines, engine_candidates, latexmk_engine_flag,
    pdf_output_path, resolve_engine, run_failure, tex_extra_paths, EnginesFound, Latexmk, Probe,
    TexFile, TexTree,
};

fn tex() -> TexFile {
    TexFile {
        exists: true,
        display: "/p/a.tex".to_string(),
        parent: Some("/p".to_string()),
        file_name: Some("a.tex".to_string()),
        file_stem: Some("a".to_string()),
    }
}

fn latexmk() -> Option<Latexmk> {
    Some(Latexmk {
        path: "/Library/TeX/texbin/latexmk".to_string(),
        parent: Some("/Library/TeX/texbin".to_string()),
    })
}

#[test]
fn tex_directories_are_searched_in_order() {
    let trees = vec![
        TexTree {
            path: "/usr/local/texlive/2024".to_string(),
            universal_darwin: true,
            arm64_darwin: false,
            x86_64_darwin: true,
        },
        TexTree {
            path: "/usr/local/texlive/2023".to_string(),
            universal_darwin: false,
            arm64_darwin: true,
            x86_64_darwin: false,
        },
    ];
    assert_eq!(
        tex_extra_paths(&trees),
        [
            "/Library/TeX/texbin",
            "/usr/local/texlive/2024/bin/universal-darwin",
            "/usr/local/texlive/2024/bin/x86_64-darwin",
            "/usr/local/texlive/2023/bin/arm64-darwin",
            "/usr/bin",
            "/usr/local/bin",
            "/opt/homebrew/bin",
            "/usr/local/bin",
        ]
    );
    assert_eq!(
        engine_candidates(&vec!["/usr/bin".to_string(), "/x".to_string()], "latexmk"),
        ["/usr/bin/latexmk", "/x/latexmk"]
    );
}

#[test]
fn path_comes_before_tex_directories() {
    let probe = |path: &str, is_file: bool| Probe { path: path.to_string(), is_file };
    let probes = vec![probe("/a", false), probe("/b", true), probe("/c", true)];
    assert_eq!(resolve_engine(Some("/p".to_string()), probes.clone()).as_deref(), Some("/p"));
    assert_eq!(resolve_engine(None, probes).as_deref(), Some("/b"));
    assert_eq!(resolve_engine(None, vec![probe("/a", false)]), None);
}

#[test]
fn offered_engines_have_a_flag() {
    let all = EnginesFound { pdflatex: true, xelatex: true, lualatex: true };
    let offered = detect_latex_engines(Some("/bin/latexmk".to_string()), all);
    let ids: Vec<&str> = offered.iter().map(|e| e.id.as_str()).collect();
    assert_eq!(ids, ["pdflatex", "xelatex", "lualatex"]);
    assert_eq!(offered[1].label, "XeLaTeX");
    for engine in &offered {
        assert_eq!(engine.path.as_deref(), Some("/bin/latexmk"));
        assert!(latexmk_engine_flag(&engine.id).is_some());
    }
    let some = EnginesFound { pdflatex: false, xelatex: true, lualatex: false };
    assert_eq!(detect_latex_engines(Some("/bin/latexmk".to_string()), some).len(), 1);
    let none = EnginesFound { pdflatex: true, xelatex: true, lualatex: true };
    assert!(detect_latex_engines(None, none).is_empty());
    assert_eq!(latexmk_engine_flag("pdflatex"), Some("-pdf"));
    assert_eq!(latexmk_engine_flag("xelatex"), Some("-xelatex"));
    assert_eq!(latexmk_engine_flag("lualatex"), Some("-lualatex"));
    assert_eq!(latexmk_engine_flag("latexmk"), None);
}

#[test]
fn compile_command_runs_latexmk_next_to_the_source() {
    let command = compile_command(&tex(), "xelatex", latexmk()).unwrap();
    assert_eq!(command.program, "/Library/TeX/texbin/latexmk");
    assert_eq!(command.cwd, "/p");
    assert_eq!(
        command.args,
        ["-xelatex", "-interaction=nonstopmode", "-halt-on-error", "-outdir=/p", "a.tex"]
    );
    assert_eq!(command.path_prefix.as_deref(), Some("/Library/TeX/texbin:"));
    let bare = Some(Latexmk { path: "latexmk".to_string(), parent: None });
    assert_eq!(compile_command(&tex(), "pdflatex", bare).unwrap().path_prefix, None);
}

#[test]
fn compile_refusals_come_in_order() {
    let mut missing = tex();
    missing.exists = false;
    missing.parent = None;
    assert_eq!(
        compile_command(&missing, "nope", None).unwrap_err().message,
        "tex file not found: /p/a.tex"
    );
    let mut rootless = tex();
    rootless.parent = None;
    rootless.file_name = None;
    assert_eq!(
        compile_command(&rootless, "nope", None).unwrap_err().message,
        "cannot determine parent directory"
    );
    let mut unnamed = tex();
    unnamed.file_name = None;
    assert_eq!(
        compile_command(&unnamed, "nope", None).unwrap_err().message,
        "invalid tex file name"
    );
    assert_eq!(
        compile_command(&tex(), "nope", None).unwrap_err().message,
        "unknown latex engine: nope"
    );
    assert_eq!(
        compile_command(&tex(), "pdflatex", None).unwrap_err().message,
        "latexmk not found on this system"
    );
    assert_eq!(run_failure("xelatex", "no such file").message, "failed to run xelatex: no such file");
}

#[test]
fn pdf_is_named_where_it_was_made() {
    assert_eq!(pdf_output_path("/p", Some("a")), "/p/a.pdf");
    assert_eq!(pdf_output_path("/", Some("a")), "/a.pdf");
    assert_eq!(pdf_output_path("", None), "output.pdf");
    let made = compile_result(true, true, "/p/a.pdf".to_string(), "out", "err");
    assert!(made.ok);
    assert_eq!(made.pdf_path.as_deref(), Some("/p/a.pdf"));
    assert_eq!(made.log, "out\nerr");
    for (success, exists) in [(true, false), (false, true), (false, false)] {
        let failed = compile_result(success, exists, "/p/a.pdf".to_string(), "", "");
        assert!(!failed.ok);
        assert_eq!(failed.pdf_path, None);
        assert_eq!(failed.log, "\n");
    }
}
