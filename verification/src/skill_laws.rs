//! What the import of skills comes to, said of the files that were staged and of the names that
//! were asked for.
use crate::error::AppError;
use crate::frontmatter::{frontmatter_block, scalar_field};
use crate::json::json_string_at;
use crate::outside::{gunzipped, uuid_form};
use crate::skill::{
    accept_archive, accept_unpacked, asked_for, at_most, decode_gzip, discover_candidates,
    discover_candidates_from_dir, discovered, discovery_dir, finish_discovery, install_from_archive,
    install_from_staged_dir, installs, is_discovery_metadata, is_skill_manifest, manifests,
    name_matches, offers, parse_skill_metadata, path_matches, portable, present_reference,
    provenance, skill_entries, skill_metadata, staged_reference, staged_source, truncate_chars,
    usable_skills, valid_skill_name, DiscoveryStage, InstallStep, ParsedSkillCandidate,
    SkillCandidate, SkillDiscovery, SkillEntry, SkillProvenance, SkillSource, StagedFile,
    MAX_ARCHIVE_BYTES, MAX_DESCRIPTION_LEN, MAX_EXTRACTED_FILES,
};
use crate::text::{contents, white_space};
use crate::text_laws::lemma_trimmed_end_bounds;
use vstd::prelude::*;

verus! {

/// A name has 1 to 64 characters, lower-case letters, digits and hyphens, and neither starts nor
/// ends with a hyphen.
pub proof fn law_skill_name(value: &str, r: bool)
    requires
        call_ensures(valid_skill_name, (value,), r),
    ensures
        r <==> {
            &&& 1 <= value@.len() <= 64
            &&& forall|i: int| 0 <= i < value@.len() ==> {
                let n = (#[trigger] value@[i]) as int;
                97 <= n <= 122 || 48 <= n <= 57 || n == 45
            }
            &&& value@[0] as int != 45
            &&& value@[value@.len() - 1] as int != 45
        },
{
    let s = value@;
    if 1 <= s.len() <= 64 && (forall|i: int| 0 <= i < s.len() ==> {
        let n = (#[trigger] s[i]) as int;
        97 <= n <= 122 || 48 <= n <= 57 || n == 45
    }) {
        assert forall|i: int| 0 <= i < s.len() implies crate::skill::name_char(#[trigger] s[i]) by {
            let n = s[i] as int;
            assert(97 <= n <= 122 || 48 <= n <= 57 || n == 45);
        }
    }
    if r {
        assert forall|i: int| 0 <= i < s.len() implies {
            let n = (#[trigger] s[i]) as int;
            97 <= n <= 122 || 48 <= n <= 57 || n == 45
        } by {
            assert(crate::skill::name_char(s[i]));
        }
    }
}

/// A text of at most `max` characters stays. A longer one keeps its first `max` characters but
/// for the white space at their end, and an ellipsis stands behind them.
pub proof fn law_truncation(value: &str, max: usize, r: String)
    requires
        call_ensures(truncate_chars, (value, max), r),
    ensures
        value@.len() <= max ==> r@ == value@,
        value@.len() > max ==> {
            let k = r@.len() - 1;
            &&& 0 <= k <= max
            &&& r@ == value@.take(k).push('…')
            &&& forall|i: int| k <= i < max ==> white_space(#[trigger] value@[i])
            &&& k > 0 ==> !white_space(value@[k - 1])
        },
{
    if value@.len() > max {
        let head = value@.take(max as int);
        lemma_trimmed_end_bounds(head);
        let k = r@.len() - 1;
        assert(head.take(k) =~= value@.take(k));
        assert forall|i: int| k <= i < max implies white_space(#[trigger] value@[i]) by {
            assert(head[i] == value@[i]);
        }
    }
}

/// A SKILL.md is usable where its frontmatter has a valid name. The name is given back as it
/// stands there, and the description cut to 1024 characters, or nothing where there is none.
pub proof fn law_skill_metadata(
    content: &str,
    r: Result<(String, String), AppError>,
    block: Option<Vec<String>>,
    name: Option<String>,
    name_text: &str,
    valid: bool,
    description: Option<String>,
    description_text: &str,
    cut: String,
)
    requires
        call_ensures(parse_skill_metadata, (content,), r),
        call_ensures(frontmatter_block, (content,), block),
        block matches Some(b) ==> call_ensures(scalar_field, (&b, "name"), name) && call_ensures(
            scalar_field,
            (&b, "description"),
            description,
        ),
        name matches Some(n) ==> name_text@ == n@,
        call_ensures(valid_skill_name, (name_text,), valid),
        description_text@ == match description {
            Some(d) => d@,
            None => Seq::empty(),
        },
        call_ensures(truncate_chars, (description_text, 1024), cut),
    ensures
        block is None ==> (r matches Err(e) && e@ == "SKILL.md is missing YAML frontmatter"@),
        block is Some && (name is None || !valid) ==> (r matches Err(e) && e@
            == "SKILL.md has an invalid name; use lowercase letters, numbers, and hyphens"@),
        block is Some && name is Some && valid ==> (r matches Ok((n, d)) && n@ == name_text@ && d@
            == cut@),
        MAX_DESCRIPTION_LEN == 1024,
{
}

/// A file that describes a skill, as a predicate on staged files.
pub open spec fn skill_files() -> spec_fn(StagedFile) -> bool {
    |f: StagedFile|
        f.is_file && f.file_name@ == "SKILL.md"@ && f.path@ != "source.json"@ && f.path@
            != "sparse.json"@
}

/// The skill that a file describes, where it can be read and is usable.
pub open spec fn read_skill() -> spec_fn(StagedFile) -> Option<SkillEntry> {
    |f: StagedFile|
        match f.content {
            Some(text) => match skill_metadata(text@) {
                Ok((name, description)) => Some(
                    SkillEntry { file: f.id as int, dir: f.dir@, name, description },
                ),
                Err(_) => None,
            },
            None => None,
        }
}

/// A path with a slash for each backslash.
pub open spec fn slashed(path: Seq<char>) -> Seq<char> {
    Seq::new(
        path.len(),
        |i: int|
            if path[i] == '\\' {
                '/'
            } else {
                path[i]
            },
    )
}

/// The path is `tail`, or ends with it behind a slash.
pub open spec fn leads_to(path: Seq<char>, tail: Seq<char>) -> bool {
    let k = path.len() - tail.len();
    path == tail || (k > 0 && path[k - 1] == '/' && path.skip(k) == tail)
}

/// A name that stands in a list, or any name where the list is empty or holds a star.
pub open spec fn picked(name: Seq<char>, names: Seq<String>) -> bool {
    ||| names.len() == 0
    ||| exists|j: int| 0 <= j < names.len() && (#[trigger] names[j])@ == name
    ||| exists|j: int| 0 <= j < names.len() && (#[trigger] names[j])@ == seq!['*']
}

/// A skill that a source asks for, as a predicate on skills.
pub open spec fn sought(subpath: Option<String>, names: Seq<String>) -> spec_fn(
    SkillEntry,
) -> bool {
    |e: SkillEntry|
        picked(e.name, names) && (subpath matches Some(tail) ==> leads_to(slashed(e.dir), tail@))
}

proof fn lemma_slashed(path: Seq<char>)
    ensures
        portable(path) == slashed(path),
    decreases path.len(),
{
    reveal_strlit("\\");
    reveal_strlit("/");
    assert("\\"@ =~= seq!['\\']);
    assert("/"@ =~= seq!['/']);
    if path.len() > 0 {
        let rest = path.skip(1);
        lemma_slashed(rest);
        assert(seq!['\\'].is_prefix_of(path) == (path[0] == '\\')) by {
            assert(path.take(1) =~= seq![path[0]]);
            if path[0] != '\\' {
                assert(seq!['\\'][0] == '\\' && path.take(1)[0] == path[0]);
            }
        }
        assert(portable(path) =~= slashed(path));
    } else {
        assert(portable(path) =~= slashed(path));
    }
}

proof fn lemma_sought(e: SkillEntry, subpath: Option<String>, names: Seq<String>)
    ensures
        sought(subpath, names)(e) == (path_matches(portable(e.dir), subpath) && name_matches(
            e.name,
            contents(names),
        )),
{
    let all = contents(names);
    reveal_strlit("*");
    assert("*"@ =~= seq!['*']);
    lemma_slashed(e.dir);
    if picked(e.name, names) && names.len() > 0 {
        if exists|j: int| 0 <= j < names.len() && (#[trigger] names[j])@ == e.name {
            let j = choose|j: int| 0 <= j < names.len() && (#[trigger] names[j])@ == e.name;
            assert(all[j] == e.name);
        } else {
            let j = choose|j: int| 0 <= j < names.len() && (#[trigger] names[j])@ == seq!['*'];
            assert(all[j] == "*"@);
        }
    }
    if name_matches(e.name, all) && names.len() > 0 {
        let i = choose|i: int|
            0 <= i < all.len() && (#[trigger] all[i] == "*"@ || all[i] == e.name);
        assert(names[i]@ == all[i]);
    }
    if let Some(tail) = subpath {
        let path = slashed(e.dir);
        let end = "/"@ + tail@;
        reveal_strlit("/");
        let k = path.len() - tail@.len();
        if end.is_suffix_of(path) {
            assert(end =~= path.subrange(path.len() - end.len(), path.len() as int));
            assert(end[0] == '/');
            assert(path[k - 1] == '/');
            assert(path.skip(k) =~= tail@) by {
                assert forall|i: int| 0 <= i < tail@.len() implies path.skip(k)[i] == tail@[i] by {
                    assert(end[i + 1] == tail@[i]);
                }
            }
        }
        if k > 0 && path[k - 1] == '/' && path.skip(k) == tail@ {
            assert(path.subrange(path.len() - end.len(), path.len() as int) =~= end) by {
                assert forall|i: int| 0 <= i < end.len() implies path.subrange(
                    path.len() - end.len(),
                    path.len() as int,
                )[i] == end[i] by {
                    if i > 0 {
                        assert(path.skip(k)[i - 1] == path[k + i - 1]);
                    }
                }
            }
        }
    }
}

proof fn lemma_asked_for_is_filter(
    entries: Seq<SkillEntry>,
    subpath: Option<String>,
    names: Seq<String>,
)
    ensures
        asked_for(entries, subpath, contents(names)) == entries.filter(sought(subpath, names)),
    decreases entries.len(),
{
    reveal(Seq::filter);
    if entries.len() > 0 {
        lemma_asked_for_is_filter(entries.drop_last(), subpath, names);
        lemma_sought(entries.last(), subpath, names);
    } else {
        assert(entries =~= Seq::<SkillEntry>::empty());
    }
}

proof fn lemma_manifests_is_filter(files: Seq<StagedFile>)
    ensures
        manifests(files) == files.filter(skill_files()),
    decreases files.len(),
{
    reveal(Seq::filter);
    if files.len() > 0 {
        lemma_manifests_is_filter(files.drop_last());
    } else {
        assert(files =~= Seq::<StagedFile>::empty());
    }
}

proof fn lemma_usable_skills_is_filter_map(files: Seq<StagedFile>)
    ensures
        usable_skills(files) == files.filter_map(read_skill()),
    decreases files.len(),
{
    if files.len() > 0 {
        lemma_usable_skills_is_filter_map(files.drop_last());
        assert(usable_skills(files) =~= files.filter_map(read_skill()));
    }
}

/// The skills that are read of staged files: those of the first 2001 files that describe skills.
pub open spec fn skills_read(files: Seq<StagedFile>) -> Seq<SkillEntry> {
    let all = files.filter(skill_files());
    let first = if all.len() <= 2001 {
        all
    } else {
        all.take(2001)
    };
    first.filter_map(read_skill())
}

proof fn lemma_discovered(files: Seq<StagedFile>, subpath: Option<String>, names: Seq<String>)
    ensures
        discovered(files, subpath, contents(names)) == if skills_read(files).len() > 2000 {
            Err::<Seq<SkillEntry>, Seq<char>>("skill archive contains too many files"@)
        } else {
            Ok::<Seq<SkillEntry>, Seq<char>>(skills_read(files).filter(sought(subpath, names)))
        },
{
    lemma_manifests_is_filter(files);
    lemma_usable_skills_is_filter_map(at_most(manifests(files), 2001));
    lemma_asked_for_is_filter(skills_read(files), subpath, names);
}

/// A discovery gives the usable skills of the staged files that the source asks for, all of them,
/// in the order of the files, and nothing else. It fails only where more than 2000 files describe
/// usable skills.
pub proof fn law_discovery(
    files: Vec<StagedFile>,
    source: SkillSource,
    r: Result<Vec<ParsedSkillCandidate>, AppError>,
)
    requires
        call_ensures(discover_candidates_from_dir, (&files, &source), r),
    ensures
        match r {
            Ok(v) => {
                let wanted = skills_read(files@).filter(
                    sought(source.subpath, source.skill_names@),
                );
                &&& skills_read(files@).len() <= 2000
                &&& v@.len() == wanted.len()
                &&& forall|i: int| 0 <= i < wanted.len() ==> {
                    &&& (#[trigger] v@[i]).file == wanted[i].file
                    &&& v@[i].dir@ == wanted[i].dir
                    &&& v@[i].name@ == wanted[i].name
                    &&& v@[i].description@ == wanted[i].description
                }
            },
            Err(e) => skills_read(files@).len() > 2000 && e@
                == "skill archive contains too many files"@,
        },
{
    lemma_discovered(files@, source.subpath, source.skill_names@);
    if let Ok(v) = r {
        let all = skill_entries(v@);
        assert forall|i: int| 0 <= i < all.len() implies {
            &&& (#[trigger] v@[i]).file == all[i].file
            &&& v@[i].dir@ == all[i].dir
            &&& v@[i].name@ == all[i].name
            &&& v@[i].description@ == all[i].description
        } by {
            assert(all[i] == v@[i]@);
        }
    }
}

/// Whichever names are asked for, and however many, each skill with one of these names is kept,
/// at whatever place its name stands. Nothing else is kept, unless no name is given or a star is
/// among them.
pub proof fn law_every_name_asked_for_counts(
    entries: Seq<SkillEntry>,
    names: Seq<Seq<char>>,
    i: int,
    j: int,
)
    requires
        0 <= i < entries.len(),
        0 <= j < names.len(),
    ensures
        names[j] == entries[i].name ==> asked_for(entries, None, names).contains(entries[i]),
        names[j] == seq!['*'] ==> asked_for(entries, None, names) == entries,
        (forall|k: int| 0 <= k < names.len() ==> #[trigger] names[k] != entries[i].name && names[k]
            != seq!['*']) ==> forall|m: int|
            0 <= m < asked_for(entries, None, names).len() ==> (#[trigger] asked_for(
                entries,
                None,
                names,
            )[m]).name != entries[i].name,
{
    reveal_strlit("*");
    assert("*"@ =~= seq!['*']);
    if names[j] == entries[i].name {
        lemma_kept(entries, names, i);
    }
    if names[j] == seq!['*'] {
        assert(names.contains("*"@));
        crate::skill::law_star_selects_everything(entries, names);
    }
    if forall|k: int| 0 <= k < names.len() ==> #[trigger] names[k] != entries[i].name && names[k]
        != seq!['*'] {
        lemma_not_kept(entries, names, entries[i].name);
    }
}

proof fn lemma_kept(entries: Seq<SkillEntry>, names: Seq<Seq<char>>, i: int)
    requires
        0 <= i < entries.len(),
        exists|j: int| 0 <= j < names.len() && #[trigger] names[j] == entries[i].name,
    ensures
        asked_for(entries, None, names).contains(entries[i]),
    decreases entries.len(),
{
    let kept = asked_for(entries, None, names);
    let j = choose|j: int| 0 <= j < names.len() && #[trigger] names[j] == entries[i].name;
    assert(name_matches(names[j], names));
    if i == entries.len() - 1 {
        assert(kept[kept.len() - 1] == entries[i]);
    } else {
        let before = asked_for(entries.drop_last(), None, names);
        assert(entries.drop_last()[i] == entries[i]);
        lemma_kept(entries.drop_last(), names, i);
        let m = choose|m: int| 0 <= m < before.len() && before[m] == entries[i];
        assert(kept[m] == entries[i]);
    }
}

proof fn lemma_not_kept(entries: Seq<SkillEntry>, names: Seq<Seq<char>>, name: Seq<char>)
    requires
        names.len() > 0,
        forall|k: int| 0 <= k < names.len() ==> #[trigger] names[k] != name && names[k] != "*"@,
    ensures
        forall|m: int| 0 <= m < asked_for(entries, None, names).len() ==> (#[trigger] asked_for(
            entries,
            None,
            names,
        )[m]).name != name,
    decreases entries.len(),
{
    if entries.len() > 0 {
        let before = asked_for(entries.drop_last(), None, names);
        lemma_not_kept(entries.drop_last(), names, name);
        assert forall|m: int| 0 <= m < asked_for(entries, None, names).len() implies (
        #[trigger] asked_for(entries, None, names)[m]).name != name by {
            if m < before.len() {
                assert(asked_for(entries, None, names)[m] == before[m]);
            } else {
                assert(!name_matches(name, names));
            }
        }
    }
}

/// An installation takes the skills of the discovery that are selected, in their order. Each goes
/// to the directory of its name, and is skipped exactly where that name is installed already or an
/// earlier step has it.
pub proof fn law_installation(
    files: Vec<StagedFile>,
    source: SkillSource,
    selected: Vec<String>,
    installed: Vec<String>,
    found: Result<Vec<ParsedSkillCandidate>, AppError>,
    r: Result<Vec<InstallStep>, AppError>,
)
    requires
        call_ensures(discover_candidates_from_dir, (&files, &source), found),
        call_ensures(install_from_staged_dir, (&files, &source, &selected, &installed), r),
    ensures
        found matches Err(e) ==> (r matches Err(error) && error@ == e@),
        found matches Ok(v) ==> {
            let taken = skill_entries(v@).filter(sought(None, selected@));
            match r {
                Err(e) => taken.len() == 0 && e@ == "no selected Skill remains to install"@,
                Ok(steps) => {
                    &&& steps@.len() == taken.len() > 0
                    &&& forall|i: int| #![trigger steps@[i]]
                        0 <= i < taken.len() ==> {
                            &&& steps@[i].file == taken[i].file
                            &&& steps@[i].result.name@ == taken[i].name
                            &&& steps@[i].result.description@ == taken[i].description
                            &&& steps@[i].result.path@ == ".agents/skills/"@ + taken[i].name
                            &&& steps@[i].result.source@ == source.source@
                            &&& steps@[i].result.skipped <==> {
                                ||| exists|j: int|
                                    0 <= j < installed@.len() && (#[trigger] installed@[j])@
                                        == taken[i].name
                                ||| exists|j: int| 0 <= j < i && (#[trigger] taken[j]).name
                                    == taken[i].name
                            }
                        }
                },
            }
        },
{
    if let Ok(v) = found {
        lemma_asked_for_is_filter(skill_entries(v@), None, selected@);
        let taken = skill_entries(v@).filter(sought(None, selected@));
        let there = contents(installed@);
        if let Ok(steps) = r {
            assert forall|i: int| #![trigger steps@[i]] 0 <= i < taken.len() implies {
                &&& installs(steps@[i], taken, there, source.source@, i)
                &&& there.contains(taken[i].name) <==> exists|j: int|
                    0 <= j < installed@.len() && (#[trigger] installed@[j])@ == taken[i].name
            } by {
                if there.contains(taken[i].name) {
                    let j = choose|j: int| 0 <= j < there.len() && there[j] == taken[i].name;
                    assert(installed@[j]@ == taken[i].name);
                }
                if exists|j: int|
                    0 <= j < installed@.len() && (#[trigger] installed@[j])@ == taken[i].name {
                    let j = choose|j: int|
                        0 <= j < installed@.len() && (#[trigger] installed@[j])@ == taken[i].name;
                    assert(there[j] == taken[i].name);
                }
            }
        }
    }
}

/// Every skill of the discovery whose name is selected is installed or skipped by a step of its
/// own, wherever the name stands in the selection; every skill is, where nothing or a star is
/// selected.
pub proof fn law_every_selected_skill_has_a_step(
    files: Vec<StagedFile>,
    source: SkillSource,
    selected: Vec<String>,
    installed: Vec<String>,
    found: Vec<ParsedSkillCandidate>,
    r: Result<Vec<InstallStep>, AppError>,
    i: int,
)
    requires
        call_ensures(
            discover_candidates_from_dir,
            (&files, &source),
            Ok::<Vec<ParsedSkillCandidate>, AppError>(found),
        ),
        call_ensures(install_from_staged_dir, (&files, &source, &selected, &installed), r),
        0 <= i < found@.len(),
        selected@.len() == 0 || exists|j: int|
            0 <= j < selected@.len() && ((#[trigger] selected@[j])@ == found@[i].name@
                || selected@[j]@ == seq!['*']),
    ensures
        r matches Ok(steps) && exists|k: int|
            0 <= k < steps@.len() && (#[trigger] steps@[k]).file == found@[i].file
                && steps@[k].result.name@ == found@[i].name@,
{
    broadcast use vstd::seq_lib::group_filter_ensures;

    let all = skill_entries(found@);
    let taken = all.filter(sought(None, selected@));
    law_installation(
        files,
        source,
        selected,
        installed,
        Ok::<Vec<ParsedSkillCandidate>, AppError>(found),
        r,
    );
    assert(all[i] == found@[i]@);
    assert(picked(all[i].name, selected@));
    assert(sought(None, selected@)(all[i]));
    assert(taken.contains(all[i]));
    let k = choose|k: int| 0 <= k < taken.len() && taken[k] == all[i];
    assert(r matches Ok(steps) && steps@[k].file == found@[i].file);
}

/// The user is offered each skill of the discovery, in order, under its name and description,
/// with the path that it stands at and whether a directory of its name is installed.
pub proof fn law_offer(
    files: Vec<StagedFile>,
    source: SkillSource,
    installed: Vec<String>,
    found: Result<Vec<ParsedSkillCandidate>, AppError>,
    r: Result<Vec<SkillCandidate>, AppError>,
)
    requires
        call_ensures(discover_candidates_from_dir, (&files, &source), found),
        call_ensures(discover_candidates, (&files, &source, &installed), r),
    ensures
        match (found, r) {
            (Err(e), Err(error)) => error@ == e@,
            (Ok(v), Ok(offered)) => {
                &&& offered@.len() == v@.len()
                &&& forall|i: int| #![trigger offered@[i]]
                    0 <= i < v@.len() ==> {
                        &&& offered@[i].name@ == v@[i].name@
                        &&& offered@[i].description@ == v@[i].description@
                        &&& offered@[i].source@ == source.source@
                        &&& offered@[i].relative_path@ == slashed(v@[i].dir@)
                        &&& offered@[i].already_installed <==> exists|j: int|
                            0 <= j < installed@.len() && (#[trigger] installed@[j])@ == v@[i].name@
                    }
            },
            _ => false,
        },
{
    if let (Ok(v), Ok(offered)) = (found, r) {
        let entries = skill_entries(v@);
        let there = contents(installed@);
        assert forall|i: int| #![trigger offered@[i]] 0 <= i < v@.len() implies {
            &&& offers(offered@[i], v@[i]@, source.source@, there)
            &&& portable(v@[i].dir@) == slashed(v@[i].dir@)
            &&& there.contains(v@[i].name@) <==> exists|j: int|
                0 <= j < installed@.len() && (#[trigger] installed@[j])@ == v@[i].name@
        } by {
            assert(entries[i] == v@[i]@);
            lemma_slashed(v@[i].dir@);
            if there.contains(v@[i].name@) {
                let j = choose|j: int| 0 <= j < there.len() && there[j] == v@[i].name@;
                assert(installed@[j]@ == v@[i].name@);
            }
            if exists|j: int|
                0 <= j < installed@.len() && (#[trigger] installed@[j])@ == v@[i].name@ {
                let j = choose|j: int|
                    0 <= j < installed@.len() && (#[trigger] installed@[j])@ == v@[i].name@;
                assert(there[j] == v@[i].name@);
            }
        }
    }
}

/// Which entries of a staging directory describe skills.
pub proof fn law_skill_files(is_file: bool, name: &str, path: &str, found: bool, own: bool)
    requires
        call_ensures(is_skill_manifest, (is_file, name, path), found),
        call_ensures(is_discovery_metadata, (path,), own),
    ensures
        own <==> path@ == "source.json"@ || path@ == "sparse.json"@,
        found <==> is_file && name@ == "SKILL.md"@ && !own,
{
}

/// An archive may have 64 MiB, packed and unpacked. What is unpacked is handed on whole.
pub proof fn law_archive_limits(
    len: usize,
    packed: Result<(), AppError>,
    archive: &[u8],
    tar: Result<Vec<u8>, AppError>,
    r: Result<Vec<u8>, AppError>,
)
    requires
        call_ensures(accept_archive, (len,), packed),
        call_ensures(decode_gzip, (archive,), tar),
        call_ensures(install_from_archive, (archive,), r),
    ensures
        len <= 67_108_864 <==> packed is Ok,
        packed matches Err(e) ==> e@ == "skill archive is too large"@,
        match (tar, r) {
            (Ok(v), Ok(w)) => v@.len() <= 67_108_864 && w@ == v@,
            (Ok(v), Err(e)) => v@.len() > 67_108_864 && e@ == "unpacked skill archive is too large"@,
            (Err(e), Err(error)) => error@ == e@,
            (Err(_), Ok(_)) => false,
        },
        match gunzipped(archive@) {
            Ok(bytes) => tar matches Ok(v) && v@ == bytes,
            Err(e) => tar matches Err(error) && error@ == "skill archive gzip: "@ + e,
        },
{
}

/// An unpacked archive is refused only where it has more than 64 MiB.
pub proof fn law_unpacked_limit(tar: Vec<u8>, r: Result<Vec<u8>, AppError>)
    requires
        call_ensures(accept_unpacked, (tar,), r),
    ensures
        tar@.len() <= 67_108_864 ==> (r matches Ok(v) && v@ == tar@),
        tar@.len() > 67_108_864 ==> (r matches Err(e) && e@
            == "unpacked skill archive is too large"@),
{
}

/// A staging directory is named after the UUID of its discovery, and after nothing else.
pub proof fn law_staging_directory(id: &str, r: Result<String, AppError>)
    requires
        call_ensures(discovery_dir, (id,), r),
    ensures
        match uuid_form(id@) {
            Some(form) => r matches Ok(dir) && dir@ == "agentero-skill-discovery-"@ + form,
            None => r matches Err(e) && e@ == "invalid skill discovery id"@,
        },
{
}

/// The staging directory of a new discovery is named after the id that it was given, which is a UUID
/// as it is written out.
pub proof fn law_new_discovery(r: DiscoveryStage)
    requires
        call_ensures(DiscoveryStage::begin, (), r),
    ensures
        uuid_form(r@.id) == Some(r@.id),
        r@.dir == "agentero-skill-discovery-"@ + r@.id,
{
}

/// The reference in the bookkeeping of a staging directory is a field at its top, as it stands. Where
/// it is missing, or where the bookkeeping cannot be read, the error says so.
pub proof fn law_staged_reference(metadata: &str, r: Result<String, AppError>)
    requires
        call_ensures(staged_reference, (metadata,), r),
    ensures
        match json_string_at(metadata@, "/reference"@) {
            Ok(Some(reference)) => r matches Ok(text) && text@ == reference,
            Ok(None) => r matches Err(e) && e@ == "skill discovery reference is missing"@,
            Err(message) => r matches Err(e) && e@ == message,
        },
{
}

/// A discovery is handed out exactly where it offers something, with all that it offers and the
/// id that leads to its staging directory.
pub proof fn law_finished_discovery(
    stage: DiscoveryStage,
    source: SkillSource,
    candidates: Vec<SkillCandidate>,
    r: Result<SkillDiscovery, AppError>,
    id: &str,
    dir: &str,
)
    requires
        call_ensures(finish_discovery, (stage, &source, candidates), r),
        call_ensures(DiscoveryStage::discovery_id, (&stage,), id),
        call_ensures(DiscoveryStage::dir, (&stage,), dir),
    ensures
        r is Ok <==> candidates@.len() > 0,
        r matches Ok(d) ==> {
            &&& d.discovery_id@ == id@
            &&& d.source@ == source.source@
            &&& d.candidates@ == candidates@
        },
        r matches Err(e) ==> e@ == "no importable SKILL.md was found in this source"@,
        uuid_form(id@) == Some(id@),
        dir@ == "agentero-skill-discovery-"@ + id@,
{
}

/// The bookkeeping of a staging directory is handed on as it stands, and what is missing is
/// reported.
pub proof fn law_bookkeeping<T>(
    source: Option<T>,
    r: Result<T, AppError>,
    reference: Option<String>,
    at: Result<String, AppError>,
)
    requires
        call_ensures(staged_source::<T>, (source,), r),
        call_ensures(present_reference, (reference,), at),
    ensures
        source matches Some(value) ==> r == Ok::<T, AppError>(value),
        source is None ==> (r matches Err(e) && e@ == "skill discovery metadata is invalid"@),
        reference matches Some(text) ==> (at matches Ok(found) && found@ == text@),
        reference is None ==> (at matches Err(e) && e@ == "skill discovery reference is missing"@),
{
}

/// The provenance of a skill tells its source, owner, repository, reference and time apart.
pub proof fn law_provenance(
    source: SkillSource,
    reference: &str,
    installed_at: String,
    r: SkillProvenance,
)
    requires
        call_ensures(provenance, (&source, reference, installed_at), r),
    ensures
        r.source@ == source.source@,
        r.owner@ == source.owner@,
        r.repo@ == source.repo@,
        r.reference@ == reference@,
        r.installed_at@ == installed_at@,
{
}

/// The limits of an import.
pub proof fn law_limits()
    ensures
        MAX_ARCHIVE_BYTES == 67_108_864,
        MAX_EXTRACTED_FILES == 2000,
        MAX_DESCRIPTION_LEN == 1024,
{
}

} // verus!
