//! Workspace route rules and the normalization of workspace paths.
use vstd::prelude::*;

use crate::paths::{components, is_absolute, kind_normal, kind_parent, path_components, PathComponent, comps_view};
use crate::text::push_char;

verus! {

#[derive(Debug, Clone, PartialEq, Eq)]
pub enum WorkspacePathError {
    Empty,
    Relative(String),
}

impl WorkspacePathError {
    /// The error's message, as its `Display` gives it.
    pub open spec fn message_spec(self) -> Seq<char> {
        match self {
            WorkspacePathError::Empty => "workspace path must not be empty"@,
            WorkspacePathError::Relative(p) => "workspace path must be absolute: "@ + p@,
        }
    }

    /// The error's message.
    pub fn message(&self) -> (res: String)
        ensures
            res@ == self.message_spec(),
    {
        match self {
            WorkspacePathError::Empty => crate::text::owned("workspace path must not be empty"),
            WorkspacePathError::Relative(p) => crate::text::concat("workspace path must be absolute: ", p.as_str()),
        }
    }
}

/// A workspace-to-provider route rule.
#[derive(Debug, PartialEq, Eq)]
pub struct WorkspaceRouteRule {
    pub workspace: String,
    pub provider_id: String,
    pub created_at: i64,
    pub updated_at: i64,
}

impl Clone for WorkspaceRouteRule {
    fn clone(&self) -> (res: Self)
        ensures
            res == *self,
    {
        WorkspaceRouteRule {
            workspace: self.workspace.clone(),
            provider_id: self.provider_id.clone(),
            created_at: self.created_at,
            updated_at: self.updated_at,
        }
    }
}

/// The names left after applying `..` (which drops the last name, and does
/// nothing at the root) and skipping `.` and the root.
pub open spec fn norm_fold(c: Seq<(int, Seq<char>)>, i: int) -> Seq<Seq<char>>
    decreases i,
{
    if i <= 0 {
        Seq::empty()
    } else {
        let st = norm_fold(c, i - 1);
        let x = c[i - 1];
        if x.0 == kind_parent() {
            if st.len() > 0 {
                st.drop_last()
            } else {
                st
            }
        } else if x.0 == kind_normal() {
            st.push(x.1)
        } else {
            st
        }
    }
}

/// Names joined by `/`.
pub open spec fn join_slash(st: Seq<Seq<char>>) -> Seq<char>
    decreases st.len(),
{
    if st.len() == 0 {
        Seq::empty()
    } else if st.len() == 1 {
        st[0]
    } else {
        join_slash(st.drop_last()) + seq!['/'] + st.last()
    }
}

/// Lexical normalization of an absolute path, as pushing its components
/// onto a `PathBuf` gives it: `.` dropped, `..` applied.
pub open spec fn lexical(path: Seq<char>) -> Seq<char> {
    let c = components(path);
    seq!['/'] + join_slash(norm_fold(c, c.len() as int))
}

/// The normalized workspace of a path: canonical where it exists (the
/// canonical path is handed in), lexical where it does not.
pub open spec fn normalized_spec(path: Seq<char>, canonical: Option<Seq<char>>) -> Option<Seq<char>> {
    if path.len() == 0 || !is_absolute(path) {
        None
    } else {
        match canonical {
            Some(c) => Some(c),
            None => Some(lexical(path)),
        }
    }
}

fn render(stack: &Vec<Vec<char>>) -> (res: String)
    ensures
        res@ == seq!['/'] + join_slash(stack@.map_values(|v: Vec<char>| v@)),
{
    let mut out = String::new();
    push_char(&mut out, '/');
    let mut i: usize = 0;
    while i < stack.len()
        invariant
            i <= stack@.len(),
            out@ == seq!['/'] + join_slash(stack@.map_values(|v: Vec<char>| v@).take(i as int)),
        decreases stack@.len() - i,
    {
        let ghost sv = stack@.map_values(|v: Vec<char>| v@);
        let ghost before = out@;
        if i > 0 {
            push_char(&mut out, '/');
        }
        let part = crate::text::string_from_chars(stack[i].as_slice());
        out.append(part.as_str());
        proof {
            let t = sv.take(i + 1);
            assert(t.drop_last() =~= sv.take(i as int));
            assert(t.last() == stack@[i as int]@);
            if i == 0 {
                assert(join_slash(t) == t[0]);
                assert(join_slash(sv.take(0)) =~= Seq::<char>::empty());
                assert(out@ =~= seq!['/'] + join_slash(t));
            } else {
                assert(out@ =~= seq!['/'] + join_slash(t));
            }
        }
        i = i + 1;
    }
    assert(stack@.map_values(|v: Vec<char>| v@).take(stack@.len() as int) =~= stack@.map_values(|v: Vec<char>| v@));
    out
}

/// Lexical normalization of an absolute path.
pub fn lexical_normalize(path: &str) -> (res: String)
    ensures
        res@ == lexical(path@),
{
    let comps: Vec<PathComponent> = path_components(path);
    let ghost c = comps_view(comps@);
    let mut stack: Vec<Vec<char>> = Vec::new();
    let mut i: usize = 0;
    while i < comps.len()
        invariant
            i <= comps@.len(),
            c == comps_view(comps@),
            c == components(path@),
            stack@.map_values(|v: Vec<char>| v@) == norm_fold(c, i as int),
        decreases comps@.len() - i,
    {
        let ghost before = stack@;
        let kind = comps[i].kind;
        assert(c[i as int] == (kind as int, comps@[i as int].text@));
        if kind == 2 {
            if stack.len() > 0 {
                stack.pop();
                assert(stack@.map_values(|v: Vec<char>| v@) =~= before.map_values(|v: Vec<char>| v@).drop_last());
            }
        } else if kind == 3 {
            stack.push(comps[i].text.clone());
            assert(stack@.map_values(|v: Vec<char>| v@) =~= before.map_values(|v: Vec<char>| v@).push(comps@[i as int].text@));
        }
        i = i + 1;
    }
    render(&stack)
}

/// Normalizes a workspace path.  `canonical` is what canonicalizing the
/// path on disk gave (`None` where that failed, as for a missing path).
/// An existing workspace normalizes to its canonical path, a missing
/// absolute one lexically; an empty or relative path is an error.
pub fn normalize_workspace_path(path: &str, canonical: Option<&str>) -> (res: Result<String, WorkspacePathError>)
    ensures
        match res {
            Ok(p) => normalized_spec(path@, match canonical { Some(c) => Some(c@), None => None }) == Some(p@),
            Err(WorkspacePathError::Empty) => path@.len() == 0,
            Err(WorkspacePathError::Relative(p)) => path@.len() > 0 && !is_absolute(path@) && p@ == path@,
        },
        res is Err <==> normalized_spec(path@, match canonical { Some(c) => Some(c@), None => None }) is None,
{
    let cs = crate::text::chars_of(path);
    if cs.len() == 0 {
        return Err(WorkspacePathError::Empty);
    }
    if cs[0] != '/' {
        return Err(WorkspacePathError::Relative(crate::text::owned(path)));
    }
    match canonical {
        Some(c) => Ok(crate::text::owned(c)),
        None => Ok(lexical_normalize(path)),
    }
}

} // verus!
