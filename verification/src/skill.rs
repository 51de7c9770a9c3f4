//! Skill import: which skills a staged source holds, and what is installed of them into
//! `.agents/skills`.
use crate::error::{outcome_text, AppError};
use crate::frontmatter::{block_of, field_value, frontmatter_block, has_frontmatter, scalar_field};
use crate::json::{json_string, json_string_at};
use crate::outside::{
    draw_uuid, gunzip, gunzipped, lemma_uuid_form, lemma_uuid_form_of_form, parse_uuid,
    random_uuid, uuid_form,
};
use crate::text::{
    ascii_digit, ascii_lowercase, chars_of, concat, content, contents, ends_with,
    lemma_trimmed_end, pieces, replace, replaced, same, trim_end, trimmed_end,
};
use vstd::prelude::*;

verus! {

pub const MAX_ARCHIVE_BYTES: usize = 64 * 1024 * 1024;

pub const MAX_EXTRACTED_FILES: usize = 2_000;

pub const MAX_SKILL_NAME_LEN: usize = 64;

pub const MAX_DESCRIPTION_LEN: usize = 1024;

pub const SPARSE_DISCOVERY_MARKER: &'static str = "sparse.json";

/// A skill that was imported, or was installed already.
#[derive(Debug, Clone, PartialEq, Eq)]
pub struct SkillImportResult {
    pub name: String,
    pub description: String,
    pub path: String,
    pub source: String,
    pub skipped: bool,
}

/// A skill that can be imported.
#[derive(Debug, Clone, PartialEq, Eq)]
pub struct SkillCandidate {
    pub name: String,
    pub description: String,
    pub source: String,
    pub relative_path: String,
    pub already_installed: bool,
}

/// The skills of a source that was staged.
#[derive(Debug, Clone, PartialEq, Eq)]
pub struct SkillDiscovery {
    pub discovery_id: String,
    pub source: String,
    pub candidates: Vec<SkillCandidate>,
}

/// A GitHub-backed source of skills.
#[derive(Debug, Clone, PartialEq, Eq)]
pub struct SkillSource {
    pub owner: String,
    pub repo: String,
    pub reference: Option<String>,
    pub subpath: Option<String>,
    pub skill_names: Vec<String>,
    pub source: String,
}

/// A skill that was found in a staged source: which file describes it, and the directory of that
/// file, relative to the staging directory.
#[derive(Debug, Clone, PartialEq, Eq)]
pub struct ParsedSkillCandidate {
    pub file: usize,
    pub dir: String,
    pub name: String,
    pub description: String,
}

/// `ParsedSkillCandidate` over sequences of characters.
pub struct SkillEntry {
    pub file: int,
    pub dir: Seq<char>,
    pub name: Seq<char>,
    pub description: Seq<char>,
}

impl View for ParsedSkillCandidate {
    type V = SkillEntry;

    open spec fn view(&self) -> SkillEntry {
        SkillEntry {
            file: self.file as int,
            dir: self.dir@,
            name: self.name@,
            description: self.description@,
        }
    }
}

/// The entries of candidates.
pub open spec fn skill_entries(v: Seq<ParsedSkillCandidate>) -> Seq<SkillEntry> {
    v.map_values(|c: ParsedSkillCandidate| c@)
}

pub open spec fn name_char(c: char) -> bool {
    ascii_lowercase(c) || ascii_digit(c) || c == '-'
}

/// The names that a skill may have.
pub open spec fn valid_name(s: Seq<char>) -> bool {
    &&& 0 < s.len() <= MAX_SKILL_NAME_LEN
    &&& forall|i: int| 0 <= i < s.len() ==> name_char(#[trigger] s[i])
    &&& s[0] != '-'
    &&& s.last() != '-'
}

/// Whether a skill may have the name `value`.
pub fn valid_skill_name(value: &str) -> (r: bool)
    ensures
        r == valid_name(value@),
{
    let v = chars_of(value);
    let n: usize = v.len();
    if n == 0 || n > MAX_SKILL_NAME_LEN {
        return false;
    }
    let mut i: usize = 0;
    while i < n
        invariant
            v@ == value@,
            n == v.len(),
            i <= n,
            forall|j: int| 0 <= j < i ==> name_char(#[trigger] value@[j]),
        decreases n - i,
    {
        let c = v[i];
        if !(('a' <= c && c <= 'z') || ('0' <= c && c <= '9') || c == '-') {
            assert(!name_char(value@[i as int]));
            return false;
        }
        i = i + 1;
    }
    v[0] != '-' && v[n - 1] != '-'
}

/// A text of at most `max` characters; a longer one is cut, with an ellipsis behind it.
pub open spec fn truncated(s: Seq<char>, max: int) -> Seq<char> {
    if s.len() <= max {
        s
    } else {
        trimmed_end(s.take(max)).push('…')
    }
}

/// `value`, cut after `max` characters.
pub fn truncate_chars(value: &str, max: usize) -> (r: String)
    ensures
        r@ == truncated(value@, max as int),
{
    let n: usize = chars_of(value).len();
    if n <= max {
        return value.to_owned();
    }
    let head = value.substring_char(0, max);
    assert(head@ =~= value@.take(max as int));
    let mut out = trim_end(head).to_owned();
    out.push('…');
    out
}

/// The name and the description that a SKILL.md states, or why it is not usable.
pub open spec fn skill_metadata(content: Seq<char>) -> Result<(Seq<char>, Seq<char>), Seq<char>> {
    let lines = pieces(content, '\n');
    let block = block_of(lines);
    let description = match field_value(block, "description"@) {
        Some(d) => d,
        None => Seq::empty(),
    };
    if !has_frontmatter(lines) {
        Err("SKILL.md is missing YAML frontmatter"@)
    } else {
        match field_value(block, "name"@) {
            Some(name) if valid_name(name) => Ok(
                (name, truncated(description, MAX_DESCRIPTION_LEN as int)),
            ),
            _ => Err(
                "SKILL.md has an invalid name; use lowercase letters, numbers, and hyphens"@,
            ),
        }
    }
}

/// The name and the description that a SKILL.md states.
pub fn parse_skill_metadata(content: &str) -> (r: Result<(String, String), AppError>)
    ensures
        match r {
            Ok((name, description)) => skill_metadata(content@) == Ok::<
                (Seq<char>, Seq<char>),
                Seq<char>,
            >((name@, description@)),
            Err(e) => skill_metadata(content@) == Err::<(Seq<char>, Seq<char>), Seq<char>>(e@),
        },
{
    let block = match frontmatter_block(content) {
        Some(block) => block,
        None => return Err(AppError::message("SKILL.md is missing YAML frontmatter")),
    };
    if let Some(name) = scalar_field(&block, "name") {
        if valid_skill_name(name.as_str()) {
            let description = match scalar_field(&block, "description") {
                Some(d) => d,
                None => String::new(),
            };
            return Ok((name, truncate_chars(description.as_str(), MAX_DESCRIPTION_LEN)));
        }
    }
    Err(
        AppError::message(
            "SKILL.md has an invalid name; use lowercase letters, numbers, and hyphens",
        ),
    )
}

/// A file in a staging directory. Paths are relative to it, and may stand for what is not text;
/// `id` is the number by which the file is found again. `content` is missing where the file could
/// not be read as text.
#[derive(Debug, Clone, PartialEq, Eq)]
pub struct StagedFile {
    pub id: usize,
    pub is_file: bool,
    pub file_name: String,
    pub path: String,
    pub dir: String,
    pub content: Option<String>,
}

/// The bookkeeping files of a staging directory.
pub open spec fn bookkeeping(path: Seq<char>) -> bool {
    path == "source.json"@ || path == SPARSE_DISCOVERY_MARKER@
}

/// Whether `path`, relative to the staging directory, is one of its bookkeeping files.
pub fn is_discovery_metadata(path: &str) -> (r: bool)
    ensures
        r == bookkeeping(path@),
{
    same(path, "source.json") || same(path, SPARSE_DISCOVERY_MARKER)
}

/// A file that describes a skill.
pub open spec fn manifest(file: StagedFile) -> bool {
    file.is_file && file.file_name@ == "SKILL.md"@ && !bookkeeping(file.path@)
}

/// Whether an entry of the staging directory is a file that describes a skill.
pub fn is_skill_manifest(is_file: bool, file_name: &str, path: &str) -> (r: bool)
    ensures
        r == (is_file && file_name@ == "SKILL.md"@ && !bookkeeping(path@)),
{
    is_file && same(file_name, "SKILL.md") && !is_discovery_metadata(path)
}

/// The files that describe skills, in the order of `files`.
pub open spec fn manifests(files: Seq<StagedFile>) -> Seq<StagedFile>
    decreases files.len(),
{
    if files.len() == 0 {
        Seq::empty()
    } else {
        let before = manifests(files.drop_last());
        if manifest(files.last()) {
            before.push(files.last())
        } else {
            before
        }
    }
}

/// A path with forward slashes.
pub open spec fn portable(path: Seq<char>) -> Seq<char> {
    replaced(path, "\\"@, "/"@)
}

/// The usable skills that files describe; the others are passed over.
pub open spec fn usable_skills(files: Seq<StagedFile>) -> Seq<SkillEntry>
    decreases files.len(),
{
    if files.len() == 0 {
        Seq::empty()
    } else {
        let before = usable_skills(files.drop_last());
        let file = files.last();
        match file.content {
            Some(text) => match skill_metadata(text@) {
                Ok((name, description)) => before.push(
                    SkillEntry { file: file.id as int, dir: file.dir@, name, description },
                ),
                Err(_) => before,
            },
            None => before,
        }
    }
}

/// The skill stands under the subpath of the source, if it has one.
pub open spec fn path_matches(dir: Seq<char>, subpath: Option<String>) -> bool {
    match subpath {
        Some(path) => dir == path@ || ("/"@ + path@).is_suffix_of(dir),
        None => true,
    }
}

/// The name is among those asked for. No names, or a star among them, asks for all.
pub open spec fn name_matches(name: Seq<char>, names: Seq<Seq<char>>) -> bool {
    names.len() == 0 || exists|i: int|
        0 <= i < names.len() && (#[trigger] names[i] == "*"@ || names[i] == name)
}

/// The entries under the subpath and with the names that a source asks for.
pub open spec fn asked_for(
    entries: Seq<SkillEntry>,
    subpath: Option<String>,
    names: Seq<Seq<char>>,
) -> Seq<SkillEntry>
    decreases entries.len(),
{
    if entries.len() == 0 {
        Seq::empty()
    } else {
        let before = asked_for(entries.drop_last(), subpath, names);
        let entry = entries.last();
        if path_matches(portable(entry.dir), subpath) && name_matches(entry.name, names) {
            before.push(entry)
        } else {
            before
        }
    }
}

/// At most `limit` elements from the front.
pub open spec fn at_most<T>(s: Seq<T>, limit: int) -> Seq<T> {
    if s.len() <= limit {
        s
    } else {
        s.take(limit)
    }
}

/// The skills of a staged source, or why there are too many of them. No more files are looked
/// at than it takes to find that out.
pub open spec fn discovered(
    files: Seq<StagedFile>,
    subpath: Option<String>,
    names: Seq<Seq<char>>,
) -> Result<Seq<SkillEntry>, Seq<char>> {
    let found = usable_skills(at_most(manifests(files), MAX_EXTRACTED_FILES + 1));
    if found.len() > MAX_EXTRACTED_FILES {
        Err("skill archive contains too many files"@)
    } else {
        Ok(asked_for(found, subpath, names))
    }
}

/// Whether `name` is among those asked for.
fn is_asked_for(name: &str, names: &Vec<String>) -> (r: bool)
    ensures
        r == name_matches(name@, contents(names@)),
{
    let ghost all = contents(names@);
    if names.len() == 0 {
        return true;
    }
    let mut i: usize = 0;
    while i < names.len()
        invariant
            all == contents(names@),
            i <= names.len(),
            forall|j: int| 0 <= j < i ==> #[trigger] all[j] != "*"@ && all[j] != name@,
        decreases names.len() - i,
    {
        assert(all[i as int] == names@[i as int]@);
        if same(names[i].as_str(), "*") || same(names[i].as_str(), name) {
            assert(all[i as int] == "*"@ || all[i as int] == name@);
            return true;
        }
        i = i + 1;
    }
    false
}

/// Whether a directory stands under the subpath of a source.
fn is_under(dir: &str, subpath: &Option<String>) -> (r: bool)
    ensures
        r == path_matches(dir@, *subpath),
{
    match subpath {
        Some(path) => {
            let tail = concat("/", path.as_str());
            same(dir, path.as_str()) || ends_with(dir, tail.as_str())
        },
        None => true,
    }
}

/// A path with forward slashes.
fn to_portable(path: &str) -> (r: String)
    ensures
        r@ == portable(path@),
{
    proof {
        reveal_strlit("\\");
    }
    replace(path, "\\", "/")
}

/// The usable skills among the first `MAX_EXTRACTED_FILES + 1` files that describe skills.
fn read_skills(files: &Vec<StagedFile>) -> (r: Vec<ParsedSkillCandidate>)
    ensures
        skill_entries(r@) == usable_skills(at_most(manifests(files@), MAX_EXTRACTED_FILES + 1)),
{
    let mut out: Vec<ParsedSkillCandidate> = Vec::new();
    let mut seen: usize = 0;
    let mut i: usize = 0;
    let ghost limit = MAX_EXTRACTED_FILES + 1;
    assert(files@.take(0) =~= Seq::<StagedFile>::empty());
    assert(skill_entries(out@) =~= Seq::<SkillEntry>::empty());
    while i < files.len()
        invariant
            i <= files.len(),
            limit == MAX_EXTRACTED_FILES + 1,
            seen == at_most(manifests(files@.take(i as int)), limit).len(),
            skill_entries(out@) == usable_skills(at_most(manifests(files@.take(i as int)), limit)),
        decreases files.len() - i,
    {
        let ghost known = manifests(files@.take(i as int));
        let ghost before = out@;
        assert(files@.take(i + 1).drop_last() =~= files@.take(i as int));
        let file = &files[i];
        if is_skill_manifest(file.is_file, file.file_name.as_str(), file.path.as_str()) {
            let ghost now = known.push(*file);
            assert(manifests(files@.take(i + 1)) == now);
            if seen <= MAX_EXTRACTED_FILES {
                seen = seen + 1;
                assert(at_most(now, limit) =~= at_most(known, limit).push(*file));
                assert(at_most(now, limit).drop_last() =~= at_most(known, limit));
                if let Some(text) = &file.content {
                    if let Ok((name, description)) = parse_skill_metadata(text.as_str()) {
                        let candidate = ParsedSkillCandidate {
                            file: file.id,
                            dir: file.dir.clone(),
                            name,
                            description,
                        };
                        let ghost entry = candidate@;
                        out.push(candidate);
                        assert(skill_entries(out@) =~= skill_entries(before).push(entry));
                    }
                }
            } else {
                assert(at_most(now, limit) =~= at_most(known, limit));
            }
        }
        i = i + 1;
    }
    assert(files@.take(i as int) =~= files@);
    out
}

/// The candidates under the subpath and with the names that a source asks for.
fn keep_asked_for(
    found: Vec<ParsedSkillCandidate>,
    subpath: &Option<String>,
    names: &Vec<String>,
) -> (r: Vec<ParsedSkillCandidate>)
    ensures
        skill_entries(r@) == asked_for(skill_entries(found@), *subpath, contents(names@)),
{
    let ghost all = skill_entries(found@);
    let mut out: Vec<ParsedSkillCandidate> = Vec::new();
    let mut i: usize = 0;
    assert(all.take(0) =~= Seq::<SkillEntry>::empty());
    assert(skill_entries(out@) =~= Seq::<SkillEntry>::empty());
    while i < found.len()
        invariant
            i <= found.len(),
            all == skill_entries(found@),
            skill_entries(out@) == asked_for(all.take(i as int), *subpath, contents(names@)),
        decreases found.len() - i,
    {
        let ghost before = out@;
        assert(all.take(i + 1).drop_last() =~= all.take(i as int));
        assert(all[i as int] == found@[i as int]@);
        let c = &found[i];
        let dir = to_portable(c.dir.as_str());
        if is_under(dir.as_str(), subpath) && is_asked_for(c.name.as_str(), names) {
            let copy = ParsedSkillCandidate {
                file: c.file,
                dir: c.dir.clone(),
                name: c.name.clone(),
                description: c.description.clone(),
            };
            out.push(copy);
            assert(skill_entries(out@) =~= skill_entries(before).push(all[i as int]));
        }
        i = i + 1;
    }
    assert(all.take(i as int) =~= all);
    out
}

/// The skills of a staged source that it asks for.
pub fn discover_candidates_from_dir(files: &Vec<StagedFile>, source: &SkillSource) -> (r: Result<
    Vec<ParsedSkillCandidate>,
    AppError,
>)
    ensures
        match r {
            Ok(v) => discovered(files@, source.subpath, contents(source.skill_names@)) == Ok::<
                Seq<SkillEntry>,
                Seq<char>,
            >(skill_entries(v@)),
            Err(e) => discovered(files@, source.subpath, contents(source.skill_names@)) == Err::<
                Seq<SkillEntry>,
                Seq<char>,
            >(e@),
        },
{
    let found = read_skills(files);
    if found.len() > MAX_EXTRACTED_FILES {
        return Err(AppError::message("skill archive contains too many files"));
    }
    Ok(keep_asked_for(found, &source.subpath, &source.skill_names))
}

/// What the user is offered: the skill `entry` of `source`.
pub open spec fn offers(
    candidate: SkillCandidate,
    entry: SkillEntry,
    source: Seq<char>,
    installed: Seq<Seq<char>>,
) -> bool {
    &&& candidate.name@ == entry.name
    &&& candidate.description@ == entry.description
    &&& candidate.source@ == source
    &&& candidate.relative_path@ == portable(entry.dir)
    &&& candidate.already_installed == installed.contains(entry.name)
}

/// What the user is offered of a staged source, in the order of its files. `installed` are the
/// names of the directories under `.agents/skills`.
pub fn discover_candidates(
    files: &Vec<StagedFile>,
    source: &SkillSource,
    installed: &Vec<String>,
) -> (r: Result<Vec<SkillCandidate>, AppError>)
    ensures
        match (r, discovered(files@, source.subpath, contents(source.skill_names@))) {
            (Ok(v), Ok(entries)) => v@.len() == entries.len() && forall|i: int|
                0 <= i < entries.len() ==> offers(
                    #[trigger] v@[i],
                    entries[i],
                    source.source@,
                    contents(installed@),
                ),
            (Err(e), Err(message)) => e@ == message,
            _ => false,
        },
{
    let found = match discover_candidates_from_dir(files, source) {
        Ok(found) => found,
        Err(e) => return Err(e),
    };
    let ghost entries = skill_entries(found@);
    let mut out: Vec<SkillCandidate> = Vec::new();
    let mut i: usize = 0;
    while i < found.len()
        invariant
            i <= found.len(),
            entries == skill_entries(found@),
            out@.len() == i,
            forall|j: int| 0 <= j < i ==> offers(
                #[trigger] out@[j],
                entries[j],
                source.source@,
                contents(installed@),
            ),
        decreases found.len() - i,
    {
        assert(entries[i as int] == found@[i as int]@);
        out.push(
            SkillCandidate {
                name: found[i].name.clone(),
                description: found[i].description.clone(),
                source: source.source.clone(),
                relative_path: to_portable(found[i].dir.as_str()),
                already_installed: is_listed(found[i].name.as_str(), installed),
            },
        );
        i = i + 1;
    }
    Ok(out)
}

/// Whether `name` is listed in `names`.
fn is_listed(name: &str, names: &Vec<String>) -> (r: bool)
    ensures
        r == contents(names@).contains(name@),
{
    let ghost all = contents(names@);
    let mut i: usize = 0;
    while i < names.len()
        invariant
            all == contents(names@),
            i <= names.len(),
            forall|j: int| 0 <= j < i ==> all[j] != name@,
        decreases names.len() - i,
    {
        assert(all[i as int] == names@[i as int]@);
        if same(names[i].as_str(), name) {
            assert(all[i as int] == name@);
            return true;
        }
        i = i + 1;
    }
    false
}

/// One skill of an installation: which file describes it, and what is reported of it. The
/// directory of that file is copied unless the skill is skipped.
#[derive(Debug, Clone, PartialEq, Eq)]
pub struct InstallStep {
    pub file: usize,
    pub result: SkillImportResult,
}

/// The skill is there already: it was before, or an earlier step installed it.
pub open spec fn already_there(entries: Seq<SkillEntry>, installed: Seq<Seq<char>>, i: int) -> bool {
    installed.contains(entries[i].name) || exists|j: int|
        0 <= j < i && (#[trigger] entries[j]).name == entries[i].name
}

/// Step `i` of the installation of `entries`.
pub open spec fn installs(
    step: InstallStep,
    entries: Seq<SkillEntry>,
    installed: Seq<Seq<char>>,
    source: Seq<char>,
    i: int,
) -> bool {
    &&& step.file == entries[i].file
    &&& step.result.name@ == entries[i].name
    &&& step.result.description@ == entries[i].description
    &&& step.result.path@ == ".agents/skills/"@ + entries[i].name
    &&& step.result.source@ == source
    &&& step.result.skipped == already_there(entries, installed, i)
}

/// The steps that install the selected skills of a staged source, in the order of its files. No
/// selection, or a star in it, selects all of them; there has to be something to install.
/// `installed` are the names that exist under `.agents/skills`.
pub fn install_from_staged_dir(
    files: &Vec<StagedFile>,
    source: &SkillSource,
    selected_names: &Vec<String>,
    installed: &Vec<String>,
) -> (r: Result<Vec<InstallStep>, AppError>)
    ensures
        match discovered(files@, source.subpath, contents(source.skill_names@)) {
            Err(message) => r matches Err(e) && e@ == message,
            Ok(all) => {
                let entries = asked_for(all, None, contents(selected_names@));
                match r {
                    Ok(steps) => {
                        &&& entries.len() > 0
                        &&& steps@.len() == entries.len()
                        &&& forall|i: int| 0 <= i < entries.len() ==> installs(
                            #[trigger] steps@[i],
                            entries,
                            contents(installed@),
                            source.source@,
                            i,
                        )
                    },
                    Err(e) => entries.len() == 0 && e@ == "no selected Skill remains to install"@,
                }
            },
        },
{
    match discover_candidates_from_dir(files, source) {
        Ok(found) => install_selected(found, source, selected_names, installed),
        Err(e) => Err(e),
    }
}

/// The steps that install the selected ones of the skills that were found.
fn install_selected(
    found: Vec<ParsedSkillCandidate>,
    source: &SkillSource,
    selected_names: &Vec<String>,
    installed: &Vec<String>,
) -> (r: Result<Vec<InstallStep>, AppError>)
    ensures
        ({
            let entries = asked_for(skill_entries(found@), None, contents(selected_names@));
            match r {
                Ok(steps) => {
                    &&& entries.len() > 0
                    &&& steps@.len() == entries.len()
                    &&& forall|i: int| 0 <= i < entries.len() ==> installs(
                        #[trigger] steps@[i],
                        entries,
                        contents(installed@),
                        source.source@,
                        i,
                    )
                },
                Err(e) => entries.len() == 0 && e@ == "no selected Skill remains to install"@,
            }
        }),
{
    let everywhere: Option<String> = None;
    let selected = keep_asked_for(found, &everywhere, selected_names);
    let ghost entries = skill_entries(selected@);
    if selected.len() == 0 {
        return Err(AppError::message("no selected Skill remains to install"));
    }
    let mut steps: Vec<InstallStep> = Vec::new();
    let mut done: Vec<String> = Vec::new();
    let mut i: usize = 0;
    while i < selected.len()
        invariant
            i <= selected.len(),
            entries == skill_entries(selected@),
            steps@.len() == i,
            done@.len() == i,
            forall|j: int| 0 <= j < i ==> #[trigger] done@[j]@ == entries[j].name,
            forall|j: int| 0 <= j < i ==> installs(
                #[trigger] steps@[j],
                entries,
                contents(installed@),
                source.source@,
                j,
            ),
        decreases selected.len() - i,
    {
        let c = &selected[i];
        assert(entries[i as int] == selected@[i as int]@);
        let skipped = is_listed(c.name.as_str(), installed) || is_listed(c.name.as_str(), &done);
        proof {
            let names = contents(done@);
            if names.contains(c.name@) {
                let j = choose|j: int| 0 <= j < names.len() && names[j] == c.name@;
                assert(done@[j]@ == entries[j].name);
            }
            if exists|j: int| 0 <= j < i && (#[trigger] entries[j]).name == entries[i as int].name {
                let j = choose|j: int|
                    0 <= j < i && (#[trigger] entries[j]).name == entries[i as int].name;
                assert(done@[j]@ == entries[j].name);
                assert(names[j] == c.name@);
            }
        }
        steps.push(
            InstallStep {
                file: c.file,
                result: SkillImportResult {
                    name: c.name.clone(),
                    description: c.description.clone(),
                    path: concat(".agents/skills/", c.name.as_str()),
                    source: source.source.clone(),
                    skipped,
                },
            },
        );
        done.push(c.name.clone());
        i = i + 1;
    }
    Ok(steps)
}

/// The unpacked form of a downloaded archive.
pub open spec fn unpacked(archive: Seq<u8>) -> Result<Seq<u8>, Seq<char>> {
    match gunzipped(archive) {
        Ok(tar) => Ok(tar),
        Err(e) => Err("skill archive gzip: "@ + e),
    }
}

/// Unpacks a gzip archive.
pub fn decode_gzip(bytes: &[u8]) -> (r: Result<Vec<u8>, AppError>)
    ensures
        match r {
            Ok(tar) => unpacked(bytes@) == Ok::<Seq<u8>, Seq<char>>(tar@),
            Err(e) => unpacked(bytes@) == Err::<Seq<u8>, Seq<char>>(e@),
        },
{
    match gunzip(bytes) {
        Ok(tar) => Ok(tar),
        Err(e) => Err(AppError { message: concat("skill archive gzip: ", e.as_str()) }),
    }
}

/// A downloaded archive of `len` bytes is small enough to be staged.
pub fn accept_archive(len: usize) -> (r: Result<(), AppError>)
    ensures
        len <= MAX_ARCHIVE_BYTES ==> r is Ok,
        len > MAX_ARCHIVE_BYTES ==> (r matches Err(e) && e@ == "skill archive is too large"@),
{
    if len > MAX_ARCHIVE_BYTES {
        return Err(AppError::message("skill archive is too large"));
    }
    Ok(())
}

/// An unpacked archive is small enough to be extracted.
pub fn accept_unpacked(tar: Vec<u8>) -> (r: Result<Vec<u8>, AppError>)
    ensures
        tar@.len() <= MAX_ARCHIVE_BYTES ==> r == Ok::<Vec<u8>, AppError>(tar),
        tar@.len() > MAX_ARCHIVE_BYTES ==> (r matches Err(e) && e@
            == "unpacked skill archive is too large"@),
{
    if tar.len() > MAX_ARCHIVE_BYTES {
        return Err(AppError::message("unpacked skill archive is too large"));
    }
    Ok(tar)
}

/// What is extracted of a staged archive before its skills are installed.
pub fn install_from_archive(archive: &[u8]) -> (r: Result<Vec<u8>, AppError>)
    ensures
        match unpacked(archive@) {
            Err(message) => r matches Err(e) && e@ == message,
            Ok(tar) => {
                &&& tar.len() <= MAX_ARCHIVE_BYTES ==> (r matches Ok(v) && v@ == tar)
                &&& tar.len() > MAX_ARCHIVE_BYTES ==> (r matches Err(e) && e@
                    == "unpacked skill archive is too large"@)
            },
        },
{
    match decode_gzip(archive) {
        Ok(tar) => accept_unpacked(tar),
        Err(e) => Err(e),
    }
}

/// The name of the staging directory of a discovery, inside the directory for temporary files.
pub open spec fn staging_name(discovery_id: Seq<char>) -> Result<Seq<char>, Seq<char>> {
    match uuid_form(discovery_id) {
        Some(id) => Ok("agentero-skill-discovery-"@ + id),
        None => Err("invalid skill discovery id"@),
    }
}

/// The name of the staging directory of a discovery.
pub fn discovery_dir(discovery_id: &str) -> (r: Result<String, AppError>)
    ensures
        outcome_text(r) == staging_name(discovery_id@),
{
    match parse_uuid(discovery_id) {
        Some(id) => Ok(concat("agentero-skill-discovery-", id.as_str())),
        None => Err(AppError::message("invalid skill discovery id")),
    }
}

/// A discovery under way: its id, and the name of its staging directory.
#[derive(Debug)]
pub struct DiscoveryStage {
    id: String,
    dir: String,
}

/// `DiscoveryStage` over sequences of characters.
pub struct StageNames {
    pub id: Seq<char>,
    pub dir: Seq<char>,
}

impl View for DiscoveryStage {
    type V = StageNames;

    closed spec fn view(&self) -> StageNames {
        StageNames { id: self.id@, dir: self.dir@ }
    }
}

impl DiscoveryStage {
    #[verifier::type_invariant]
    spec fn valid(self) -> bool {
        &&& random_uuid(self.id@)
        &&& staging_name(self.id@) == Ok::<Seq<char>, Seq<char>>(self.dir@)
    }

    /// A discovery under an id that is drawn at random.
    pub fn begin() -> (r: DiscoveryStage)
        ensures
            random_uuid(r@.id),
            staging_name(r@.id) == Ok::<Seq<char>, Seq<char>>(r@.dir),
    {
        let id = draw_uuid();
        let dir = concat("agentero-skill-discovery-", id.as_str());
        DiscoveryStage { id, dir }
    }

    /// The id of the discovery, which is that of its staging directory.
    pub fn discovery_id(&self) -> (r: &str)
        ensures
            r@ == self@.id,
            random_uuid(r@),
    {
        proof {
            use_type_invariant(self);
        }
        self.id.as_str()
    }

    /// The name of the staging directory.
    pub fn dir(&self) -> (r: &str)
        ensures
            r@ == self@.dir,
            staging_name(self@.id) == Ok::<Seq<char>, Seq<char>>(r@),
    {
        proof {
            use_type_invariant(self);
        }
        self.dir.as_str()
    }
}

/// The outcome of a discovery. The source has to hold something to import; the id is a random
/// UUID.
pub fn finish_discovery(
    stage: DiscoveryStage,
    source: &SkillSource,
    candidates: Vec<SkillCandidate>,
) -> (r: Result<SkillDiscovery, AppError>)
    ensures
        candidates@.len() == 0 ==> (r matches Err(e) && e@
            == "no importable SKILL.md was found in this source"@),
        candidates@.len() > 0 ==> (r matches Ok(d) && d.discovery_id@ == stage@.id
            && random_uuid(d.discovery_id@) && d.source@ == source.source@ && d.candidates
            == candidates),
{
    proof {
        use_type_invariant(&stage);
    }
    if candidates.len() == 0 {
        return Err(AppError::message("no importable SKILL.md was found in this source"));
    }
    Ok(SkillDiscovery { discovery_id: stage.id, source: source.source.clone(), candidates })
}

/// The source that the bookkeeping of a staging directory names.
pub fn staged_source<T>(source: Option<T>) -> (r: Result<T, AppError>)
    ensures
        match source {
            Some(value) => r == Ok::<T, AppError>(value),
            None => r matches Err(e) && e@ == "skill discovery metadata is invalid"@,
        },
{
    match source {
        Some(value) => Ok(value),
        None => Err(AppError::message("skill discovery metadata is invalid")),
    }
}

/// The reference in the bookkeeping of a staging directory, or why there is none.
pub open spec fn reference_outcome(reference: Option<Seq<char>>) -> Result<Seq<char>, Seq<char>> {
    match reference {
        Some(text) => Ok(text),
        None => Err("skill discovery reference is missing"@),
    }
}

/// The reference where the bookkeeping of a staging directory names it.
pub fn present_reference(reference: Option<String>) -> (r: Result<String, AppError>)
    ensures
        outcome_text(r) == reference_outcome(content(reference)),
{
    match reference {
        Some(text) => Ok(text),
        None => Err(AppError::message("skill discovery reference is missing")),
    }
}

/// The reference that the bookkeeping of a staging directory names.
pub fn staged_reference(metadata: &str) -> (r: Result<String, AppError>)
    ensures
        outcome_text(r) == match json_string_at(metadata@, "/reference"@) {
            Ok(reference) => reference_outcome(reference),
            Err(e) => Err(e),
        },
{
    match json_string(metadata, "/reference") {
        Ok(reference) => present_reference(reference),
        Err(e) => Err(AppError { message: e }),
    }
}

/// Where an installed skill came from.
#[derive(Debug, Clone, PartialEq, Eq)]
pub struct SkillProvenance {
    pub source: String,
    pub owner: String,
    pub repo: String,
    pub reference: String,
    pub installed_at: String,
}

/// The provenance of a skill that is installed from `source` at `reference`.
pub fn provenance(source: &SkillSource, reference: &str, installed_at: String) -> (r:
    SkillProvenance)
    ensures
        r.source@ == source.source@,
        r.owner@ == source.owner@,
        r.repo@ == source.repo@,
        r.reference@ == reference@,
        r.installed_at == installed_at,
{
    SkillProvenance {
        source: source.source.clone(),
        owner: source.owner.clone(),
        repo: source.repo.clone(),
        reference: reference.to_owned(),
        installed_at,
    }
}

/// The description of a skill is never more than one character longer than the limit.
pub proof fn law_description_is_bounded(content: Seq<char>)
    ensures
        skill_metadata(content) matches Ok((name, description)) ==> description.len()
            <= MAX_DESCRIPTION_LEN + 1,
{
    if let Ok((name, description)) = skill_metadata(content) {
        let full = match field_value(block_of(pieces(content, '\n')), "description"@) {
            Some(d) => d,
            None => Seq::empty(),
        };
        if full.len() > MAX_DESCRIPTION_LEN {
            lemma_trimmed_end(full.take(MAX_DESCRIPTION_LEN as int));
        }
    }
}

/// Every skill that files describe has a valid name.
proof fn lemma_usable_skills_are_named(files: Seq<StagedFile>)
    ensures
        forall|i: int| 0 <= i < usable_skills(files).len() ==> valid_name(
            (#[trigger] usable_skills(files)[i]).name,
        ),
    decreases files.len(),
{
    if files.len() > 0 {
        lemma_usable_skills_are_named(files.drop_last());
        let before = usable_skills(files.drop_last());
        assert forall|i: int| 0 <= i < usable_skills(files).len() implies valid_name(
            (#[trigger] usable_skills(files)[i]).name,
        ) by {
            if i < before.len() {
                assert(usable_skills(files)[i] == before[i]);
            }
        }
    }
}

/// What is asked for is among the entries, and matches.
proof fn lemma_asked_for_is_among(
    entries: Seq<SkillEntry>,
    subpath: Option<String>,
    names: Seq<Seq<char>>,
)
    ensures
        asked_for(entries, subpath, names).len() <= entries.len(),
        forall|i: int| 0 <= i < asked_for(entries, subpath, names).len() ==> {
            let entry = #[trigger] asked_for(entries, subpath, names)[i];
            &&& entries.contains(entry)
            &&& path_matches(portable(entry.dir), subpath)
            &&& name_matches(entry.name, names)
        },
    decreases entries.len(),
{
    if entries.len() > 0 {
        let shorter = entries.drop_last();
        let before = asked_for(shorter, subpath, names);
        lemma_asked_for_is_among(shorter, subpath, names);
        assert forall|i: int| 0 <= i < asked_for(entries, subpath, names).len() implies {
            let entry = #[trigger] asked_for(entries, subpath, names)[i];
            &&& entries.contains(entry)
            &&& path_matches(portable(entry.dir), subpath)
            &&& name_matches(entry.name, names)
        } by {
            if i < before.len() {
                let entry = before[i];
                assert(asked_for(entries, subpath, names)[i] == entry);
                assert(shorter.contains(entry));
                let j = choose|j: int| 0 <= j < shorter.len() && shorter[j] == entry;
                assert(entries[j] == entry);
            } else {
                assert(entries[entries.len() - 1] == entries.last());
            }
        }
    }
}

/// Every skill that is discovered has a valid name, so that the directory that it is installed
/// into stands directly under `.agents/skills`, and is one that the source asks for. There are
/// never more of them than the limit.
pub proof fn law_discovered_skills_are_named_and_asked_for(
    files: Seq<StagedFile>,
    subpath: Option<String>,
    names: Seq<Seq<char>>,
)
    ensures
        discovered(files, subpath, names) matches Ok(entries) ==> {
            &&& entries.len() <= MAX_EXTRACTED_FILES
            &&& forall|i: int| 0 <= i < entries.len() ==> {
                let entry = #[trigger] entries[i];
                &&& valid_name(entry.name)
                &&& !entry.name.contains('/')
                &&& !entry.name.contains('\\')
                &&& !entry.name.contains('.')
                &&& path_matches(portable(entry.dir), subpath)
                &&& name_matches(entry.name, names)
            }
        },
{
    let looked_at = at_most(manifests(files), MAX_EXTRACTED_FILES + 1);
    let found = usable_skills(looked_at);
    lemma_usable_skills_are_named(looked_at);
    lemma_asked_for_is_among(found, subpath, names);
    if let Ok(entries) = discovered(files, subpath, names) {
        assert forall|i: int| 0 <= i < entries.len() implies {
            let entry = #[trigger] entries[i];
            &&& valid_name(entry.name)
            &&& !entry.name.contains('/')
            &&& !entry.name.contains('\\')
            &&& !entry.name.contains('.')
            &&& path_matches(portable(entry.dir), subpath)
            &&& name_matches(entry.name, names)
        } by {
            let entry = entries[i];
            assert(found.contains(entry));
            let j = choose|j: int| 0 <= j < found.len() && found[j] == entry;
            assert(valid_name(found[j].name));
            lemma_valid_name_holds_no_other(entry.name, '/');
            lemma_valid_name_holds_no_other(entry.name, '\\');
            lemma_valid_name_holds_no_other(entry.name, '.');
        }
    }
}

/// A valid name holds no character that a name may not hold.
proof fn lemma_valid_name_holds_no_other(name: Seq<char>, c: char)
    requires
        valid_name(name),
        !name_char(c),
    ensures
        !name.contains(c),
{
    if name.contains(c) {
        let j = choose|j: int| 0 <= j < name.len() && name[j] == c;
        assert(name_char(name[j]));
    }
}

/// No selection selects every skill, and so does a star.
pub proof fn law_star_selects_everything(entries: Seq<SkillEntry>, names: Seq<Seq<char>>)
    requires
        names.len() == 0 || names.contains("*"@),
    ensures
        asked_for(entries, None, names) == entries,
    decreases entries.len(),
{
    if entries.len() > 0 {
        law_star_selects_everything(entries.drop_last(), names);
        if names.len() > 0 {
            let i = choose|i: int| 0 <= i < names.len() && names[i] == "*"@;
            assert(names[i] == "*"@);
        }
        assert(entries =~= entries.drop_last().push(entries.last()));
    }
}

/// What the user is offered can be selected: selecting the name of a discovered skill leaves
/// something to install, and that has this name.
pub proof fn law_offered_skill_can_be_selected(entries: Seq<SkillEntry>, i: int)
    requires
        0 <= i < entries.len(),
        valid_name(entries[i].name),
    ensures
        ({
            let selected = asked_for(entries, None, seq![entries[i].name]);
            &&& selected.contains(entries[i])
            &&& forall|j: int| 0 <= j < selected.len() ==> (#[trigger] selected[j]).name
                == entries[i].name
        }),
{
    let names = seq![entries[i].name];
    assert(names[0] == entries[i].name);
    assert(entries[i].name != "*"@) by {
        reveal_strlit("*");
        assert(!name_char("*"@[0]));
    }
    lemma_asked_for_keeps(entries, names, i);
    lemma_asked_for_is_among(entries, None, names);
    let selected = asked_for(entries, None, names);
    assert forall|j: int| 0 <= j < selected.len() implies (#[trigger] selected[j]).name
        == entries[i].name by {
        assert(name_matches(selected[j].name, names));
    }
}

/// An entry whose name is asked for is kept.
proof fn lemma_asked_for_keeps(entries: Seq<SkillEntry>, names: Seq<Seq<char>>, i: int)
    requires
        0 <= i < entries.len(),
        name_matches(entries[i].name, names),
    ensures
        asked_for(entries, None, names).contains(entries[i]),
    decreases entries.len(),
{
    let selected = asked_for(entries, None, names);
    if i == entries.len() - 1 {
        assert(selected.last() == entries[i]);
    } else {
        let before = asked_for(entries.drop_last(), None, names);
        lemma_asked_for_keeps(entries.drop_last(), names, i);
        let j = choose|j: int| 0 <= j < before.len() && before[j] == entries[i];
        assert(selected[j] == entries[i]);
    }
}

/// No skill is installed over one that is there: of the steps that are not skipped, none names
/// an installed skill, and no two name the same one.
pub proof fn law_no_skill_is_installed_twice(
    steps: Seq<InstallStep>,
    entries: Seq<SkillEntry>,
    installed: Seq<Seq<char>>,
    source: Seq<char>,
)
    requires
        steps.len() == entries.len(),
        forall|i: int| 0 <= i < entries.len() ==> installs(
            #[trigger] steps[i],
            entries,
            installed,
            source,
            i,
        ),
    ensures
        forall|i: int| 0 <= i < steps.len() && !(#[trigger] steps[i]).result.skipped
            ==> !installed.contains(steps[i].result.name@),
        forall|i: int, j: int| 0 <= i < j < steps.len() && !(#[trigger] steps[i]).result.skipped
            && !(#[trigger] steps[j]).result.skipped ==> steps[i].result.name@
            != steps[j].result.name@,
{
    assert forall|i: int, j: int| 0 <= i < j < steps.len() && !(#[trigger] steps[i]).result.skipped
        && !(#[trigger] steps[j]).result.skipped implies steps[i].result.name@
        != steps[j].result.name@ by {
        assert(installs(steps[i], entries, installed, source, i));
        assert(installs(steps[j], entries, installed, source, j));
        assert(entries[i].name == steps[i].result.name@);
    }
}

/// The id in the name of a staging directory leads back to that directory.
pub proof fn law_staging_id_leads_back(discovery_id: Seq<char>)
    ensures
        uuid_form(discovery_id) matches Some(id) ==> staging_name(id) == staging_name(discovery_id),
{
    lemma_uuid_form_of_form(discovery_id);
}

/// The staging directory of a discovery stands directly in the directory for temporary files,
/// whatever id it was asked for with.
pub proof fn law_staging_name_is_one_segment(discovery_id: Seq<char>)
    ensures
        staging_name(discovery_id) matches Ok(name) ==> !name.contains('/') && !name.contains('\\')
            && !name.contains('.'),
{
    if let Some(id) = uuid_form(discovery_id) {
        lemma_uuid_form(discovery_id);
        reveal_strlit("agentero-skill-discovery-");
        let prefix = "agentero-skill-discovery-"@;
        let name = prefix + id;
        assert forall|c: char| #[trigger] name.contains(c) implies c != '/' && c != '\\' && c != '.' by {
            let j = choose|j: int| 0 <= j < name.len() && name[j] == c;
            if j < prefix.len() {
                assert(prefix[j] == c);
            } else {
                assert(id[j - prefix.len()] == c);
            }
        }
    }
}

} // verus!
