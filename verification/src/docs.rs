//! A read document: one discovered file together with its classified
//! lines.

use vstd::prelude::*;

use crate::lines::{parse_env_lines, spec_classify_text, views_of, EnvLine};
use crate::scan::EnvFileRef;

verus! {

/// A file reference plus the full ordered sequence of its typed lines.
/// Produced per read request; never cached.
#[derive(Clone, Debug)]
pub struct EnvDocument {
    pub file: EnvFileRef,
    pub lines: Vec<EnvLine>,
}

/// Assembles the document for a file whose content has been loaded:
/// the lines are exactly the classification of the content, in physical
/// order.
pub fn build_env_document(file: EnvFileRef, contents: &str) -> (r: EnvDocument)
    ensures
        r.file == file,
        views_of(r.lines@) == spec_classify_text(contents@),
{
    let lines = parse_env_lines(contents);
    EnvDocument { file, lines }
}

} // verus!
