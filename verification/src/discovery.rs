use vstd::prelude::*;
use vstd::string::StringExecFns;
use crate::text::str_eq;

verus! {

/// Index of the last occurrence of `c` in `s`, or `-1` if `s` has none.
pub open spec fn last_index_of(s: Seq<char>, c: char) -> int
    decreases s.len(),
{
    if s.len() == 0 {
        -1int
    } else if s[s.len() - 1] == c {
        s.len() - 1
    } else {
        last_index_of(s.take(s.len() - 1), c)
    }
}

/// The last-occurrence index is always inside the string, or `-1`.
pub proof fn lemma_last_index_bounds(s: Seq<char>, c: char)
    ensures
        -1 <= last_index_of(s, c) < s.len(),
    decreases s.len(),
{
    if s.len() > 0 && s[s.len() - 1] != c {
        lemma_last_index_bounds(s.take(s.len() - 1), c);
    }
}

/// Find the last occurrence of `c` in `s`.
fn find_last(s: &str, c: char) -> (r: Option<usize>)
    ensures
        r is None <==> last_index_of(s@, c) == -1,
        r is Some ==> r->0 as int == last_index_of(s@, c) && r->0 < s@.len(),
{
    let n = s.unicode_len();
    proof {
        assert(s@.take(n as int) =~= s@);
    }
    let mut i: usize = n;
    while i > 0
        invariant
            0 <= i <= n,
            n == s@.len(),
            last_index_of(s@, c) == last_index_of(s@.take(i as int), c),
        decreases i,
    {
        let ch = s.get_char(i - 1);
        proof {
            assert(s@.take(i as int)[i - 1] == s@[i - 1]);
        }
        if ch == c {
            return Some(i - 1);
        }
        proof {
            assert(s@.take(i as int).take(i as int - 1) =~= s@.take(i as int - 1));
        }
        i = i - 1;
    }
    proof {
        assert(s@.take(0) =~= Seq::<char>::empty());
    }
    None
}

/// The extension of a path: the characters after the last `'.'`, provided
/// that dot lies inside the file name (after the last `'/'`) and is not the
/// file name's first character.
pub open spec fn spec_ext(path: Seq<char>) -> Option<Seq<char>> {
    let slash = last_index_of(path, '/');
    let dot = last_index_of(path, '.');
    if dot > slash + 1 {
        Some(path.subrange(dot + 1, path.len() as int))
    } else {
        None
    }
}

/// Extract the extension of a path string.
pub fn path_extension(path: &str) -> (r: Option<String>)
    ensures
        r is None <==> spec_ext(path@) is None,
        r is Some ==> spec_ext(path@) == Some(r->0@),
{
    proof {
        lemma_last_index_bounds(path@, '.');
        lemma_last_index_bounds(path@, '/');
    }
    let dot = match find_last(path, '.') {
        Some(d) => d,
        None => {
            return None;
        },
    };
    let inside_name = match find_last(path, '/') {
        Some(sl) => dot > 0 && dot - 1 > sl,
        None => dot > 0,
    };
    if inside_name {
        let n = path.unicode_len();
        Some(path.substring_char(dot + 1, n).to_owned())
    } else {
        None
    }
}

/// The language name derived from a path's extension: `ts`, `tsx` and `js`
/// map to their language names, any other extension to `unknown`, and a path
/// without an extension to nothing.
pub open spec fn spec_detect_language(path: Seq<char>) -> Option<Seq<char>> {
    match spec_ext(path) {
        Some(e) => if e == "ts"@ {
            Some("typescript"@)
        } else if e == "tsx"@ {
            Some("tsx"@)
        } else if e == "js"@ {
            Some("javascript"@)
        } else {
            Some("unknown"@)
        },
        None => None,
    }
}

/// Derive the language name of a file from its path's extension.
pub fn detect_language(path: &str) -> (r: Option<String>)
    ensures
        r is None <==> spec_detect_language(path@) is None,
        r is Some ==> spec_detect_language(path@) == Some(r->0@),
{
    match path_extension(path) {
        Some(ext) => {
            if str_eq(ext.as_str(), "ts") {
                Some("typescript".to_owned())
            } else if str_eq(ext.as_str(), "tsx") {
                Some("tsx".to_owned())
            } else if str_eq(ext.as_str(), "js") {
                Some("javascript".to_owned())
            } else {
                Some("unknown".to_owned())
            }
        },
        None => None,
    }
}

/// Selects files for analysis by their extension; the file-system walk itself
/// is done by the caller, which hands each candidate path to `matches_path`.
pub struct FileDiscovery {
    pub extensions: Vec<String>,
}

impl FileDiscovery {
    /// A discovery over the given extensions.
    pub fn new(extensions: Vec<String>) -> (r: FileDiscovery)
        ensures
            r.extensions == extensions,
    {
        FileDiscovery { extensions }
    }

    /// The default discovery: TypeScript, TSX and JavaScript sources.
    pub fn default_extensions() -> (r: FileDiscovery)
        ensures
            r.extensions@.len() == 3,
            r.extensions@[0]@ == "ts"@,
            r.extensions@[1]@ == "tsx"@,
            r.extensions@[2]@ == "js"@,
    {
        let mut v: Vec<String> = Vec::new();
        v.push("ts".to_owned());
        v.push("tsx".to_owned());
        v.push("js".to_owned());
        FileDiscovery { extensions: v }
    }

    /// Whether a path carries one of the selected extensions.
    pub fn matches_path(&self, path: &str) -> (r: bool)
        ensures
            r == match spec_ext(path@) {
                Some(e) => exists|i: int|
                    0 <= i < self.extensions@.len() && (#[trigger] self.extensions@[i])@ == e,
                None => false,
            },
    {
        let ext = match path_extension(path) {
            Some(e) => e,
            None => {
                return false;
            },
        };
        let mut i: usize = 0;
        while i < self.extensions.len()
            invariant
                0 <= i <= self.extensions@.len(),
                spec_ext(path@) == Some(ext@),
                forall|k: int| 0 <= k < i ==> (#[trigger] self.extensions@[k])@ != ext@,
            decreases self.extensions@.len() - i,
        {
            if str_eq(self.extensions[i].as_str(), ext.as_str()) {
                return true;
            }
            i = i + 1;
        }
        false
    }
}

impl Default for FileDiscovery {
    /// The default discovery: TypeScript, TSX and JavaScript sources.
    fn default() -> (r: FileDiscovery)
        ensures
            r.extensions@.len() == 3,
            r.extensions@[0]@ == "ts"@,
            r.extensions@[1]@ == "tsx"@,
            r.extensions@[2]@ == "js"@,
    {
        FileDiscovery::default_extensions()
    }
}

} // verus!
