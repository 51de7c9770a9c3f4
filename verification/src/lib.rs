//! The decision logic of a research-paper vault: note titles and aliases, paper URLs, skill
//! import, translation prompts, LaTeX compilation, sync storage and agent warm-up.
pub mod alias_laws;
pub mod error;
pub mod fetch;
pub mod fetch_laws;
pub mod frontmatter;
pub mod frontmatter_laws;
pub mod github;
pub mod github_laws;
pub mod heading_laws;
pub mod json;
pub mod latex;
pub mod latex_laws;
pub mod notes;
pub mod notes_laws;
pub mod outside;
pub mod session_laws;
pub mod skill;
pub mod skill_laws;
pub mod store;
pub mod text;
pub mod text_laws;
pub mod translate;
pub mod translate_laws;
pub mod url_laws;
pub mod urls;
pub mod warm;
