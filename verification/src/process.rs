//! Process identity for the control plane's listings: a pid together with
//! its executable path and a display name derived from that path. Resolving
//! a pid to a path is the platform layer's job; everything here works on the
//! resolved values.

use vstd::prelude::*;
use vstd::string::StrSliceExecFns;

verus! {

/// What a process looks like in control-plane listings.
#[derive(Debug, Clone)]
pub struct ProcessIdentity {
    pub pid: i32,
    pub executable_path: Option<String>,
    pub display_name: Option<String>,
}

/// The characters after the last path separator; the whole sequence when no
/// separator occurs.
pub open spec fn last_segment(s: Seq<char>) -> Seq<char>
    decreases s.len(),
{
    if s.len() == 0 {
        s
    } else if s[s.len() - 1] == '/' {
        Seq::empty()
    } else {
        last_segment(s.drop_last()).push(s[s.len() - 1])
    }
}

/// `last_segment` is the suffix that starts right after the last separator.
pub proof fn lemma_last_segment_is_suffix(s: Seq<char>, i: int)
    requires
        0 <= i <= s.len(),
        forall|j: int| i <= j < s.len() ==> s[j] != '/',
        i > 0 ==> s[i - 1] == '/',
    ensures
        last_segment(s) == s.subrange(i, s.len() as int),
    decreases s.len(),
{
    if s.len() == 0 {
        assert(last_segment(s) =~= s.subrange(i, s.len() as int));
    } else if i == s.len() {
        assert(last_segment(s) =~= s.subrange(i, s.len() as int));
    } else {
        assert(s[s.len() - 1] != '/');
        lemma_last_segment_is_suffix(s.drop_last(), i);
        assert(s.drop_last().subrange(i, s.len() - 1).push(s[s.len() - 1]) =~= s.subrange(
            i,
            s.len() as int,
        ));
    }
}

/// The substring after the last `/` of `s`; all of `s` when it has none.
pub fn last_path_segment(s: &str) -> (r: String)
    ensures
        r@ == last_segment(s@),
{
    let len = s.unicode_len();
    let mut i: usize = len;
    while i > 0
        invariant_except_break
            i <= len,
            len == s@.len(),
            forall|j: int| i <= j < len ==> s@[j] != '/',
        ensures
            i <= len,
            len == s@.len(),
            forall|j: int| i <= j < len ==> s@[j] != '/',
            i > 0 ==> s@[i - 1] == '/',
        decreases i,
    {
        if s.get_char(i - 1) == '/' {
            break ;
        }
        i = i - 1;
    }
    let seg = s.substring_char(i, len);
    proof {
        lemma_last_segment_is_suffix(s@, i as int);
    }
    seg.to_owned()
}

/// The identity `ProcessIdentity::from_path(pid, executable_path)` builds:
/// the display name is the path's final segment, when that is nonempty.
pub open spec fn derived_identity(
    pid: i32,
    executable_path: Option<String>,
    r: ProcessIdentity,
) -> bool {
    &&& r.pid == pid
    &&& r.executable_path == executable_path
    &&& match executable_path {
        Option::None => r.display_name is None,
        Option::Some(p) => if last_segment(p@).len() == 0 {
            r.display_name is None
        } else {
            r.display_name matches Some(n) && n@ == last_segment(p@)
        },
    }
}

impl ProcessIdentity {
    /// The identity of a pid whose executable path (if any) has been
    /// resolved: the display name is the path's final segment, when that is
    /// nonempty.
    pub fn from_path(pid: i32, executable_path: Option<String>) -> (r: ProcessIdentity)
        ensures
            derived_identity(pid, executable_path, r),
    {
        match executable_path {
            Option::None => ProcessIdentity {
                pid,
                executable_path: Option::None,
                display_name: Option::None,
            },
            Option::Some(p) => {
                let seg = last_path_segment(p.as_str());
                let display_name = if seg.as_str().unicode_len() == 0 {
                    Option::None
                } else {
                    Option::Some(seg)
                };
                ProcessIdentity { pid, executable_path: Option::Some(p), display_name }
            },
        }
    }

    /// The name to show for this process: its display name when present,
    /// else the final segment of its executable path.
    pub fn preferred_name(&self) -> (r: Option<String>)
        ensures
            match self.display_name {
                Option::Some(n) => r matches Some(m) && m@ == n@,
                Option::None => match self.executable_path {
                    Option::Some(p) => r matches Some(m) && m@ == last_segment(p@),
                    Option::None => r is None,
                },
            },
    {
        match &self.display_name {
            Option::Some(n) => Option::Some(n.clone()),
            Option::None => match &self.executable_path {
                Option::Some(p) => Option::Some(last_path_segment(p.as_str())),
                Option::None => Option::None,
            },
        }
    }
}

/// The identity a pid's clients are grouped under: for a positive pid, the
/// identity of its responsible process when one was found, else of the pid
/// itself; nothing for a non-positive pid. Looking up the responsible pid
/// and its executable path is the platform layer's job; both arrive here as
/// values.
pub fn resolve_responsible_identity(
    pid: i32,
    responsible_pid: Option<i32>,
    executable_path: Option<String>,
) -> (r: Option<ProcessIdentity>)
    ensures
        pid <= 0 ==> r is None,
        pid > 0 ==> (r matches Some(identity) && derived_identity(
            match responsible_pid {
                Option::Some(rp) => rp,
                Option::None => pid,
            },
            executable_path,
            identity,
        )),
{
    if pid <= 0 {
        return Option::None;
    }
    let owner = match responsible_pid {
        Option::Some(rp) => rp,
        Option::None => pid,
    };
    Option::Some(ProcessIdentity::from_path(owner, executable_path))
}

/// The display name for a pid whose executable path has been resolved: the
/// nonempty final path segment, if there is one.
pub fn process_name(pid: i32, executable_path: Option<String>) -> (r: Option<String>)
    ensures
        match executable_path {
            Option::None => r is None,
            Option::Some(p) => if last_segment(p@).len() == 0 {
                r is None
            } else {
                r matches Some(n) && n@ == last_segment(p@)
            },
        },
{
    let identity = ProcessIdentity::from_path(pid, executable_path);
    identity.display_name
}

} // verus!
