use vstd::prelude::*;

verus! {

/// Per-class physical line counts for one source file.
#[derive(Clone, Copy, PartialEq, Eq, Structural, Debug)]
pub struct LOCStats {
    pub code: u32,
    pub comment: u32,
    pub blank: u32,
}

impl LOCStats {
    /// Total number of physical lines covered by the three counters.
    pub fn total(&self) -> (r: Option<u32>)
        ensures
            r is Some ==> r->0 == self.code + self.comment + self.blank,
            self.code + self.comment + self.blank <= u32::MAX ==> r is Some,
    {
        match self.code.checked_add(self.comment) {
            Some(s) => s.checked_add(self.blank),
            None => None,
        }
    }
}

/// Whitespace recognized when a line is trimmed: the Unicode White_Space
/// set, the same characters `str::trim` removes.
pub open spec fn is_space(c: char) -> bool {
    ('\u{0009}' <= c && c <= '\u{000D}') || c == ' ' || c == '\u{0085}' || c == '\u{00A0}'
        || c == '\u{1680}' || ('\u{2000}' <= c && c <= '\u{200A}') || c == '\u{2028}' || c
        == '\u{2029}' || c == '\u{202F}' || c == '\u{205F}' || c == '\u{3000}'
}

/// The line with its leading whitespace removed.
pub open spec fn trim_front(s: Seq<char>) -> Seq<char>
    decreases s.len(),
{
    if s.len() > 0 && is_space(s[0]) {
        trim_front(s.skip(1))
    } else {
        s
    }
}

/// The line with its trailing whitespace removed.
pub open spec fn trim_back(s: Seq<char>) -> Seq<char>
    decreases s.len(),
{
    if s.len() > 0 && is_space(s[s.len() - 1]) {
        trim_back(s.take(s.len() - 1))
    } else {
        s
    }
}

/// The line with whitespace removed on both sides.
pub open spec fn trimmed(s: Seq<char>) -> Seq<char> {
    trim_back(trim_front(s))
}

pub open spec fn starts_with(s: Seq<char>, p: Seq<char>) -> bool {
    p.len() <= s.len() && s.subrange(0, p.len() as int) == p
}

pub open spec fn ends_with(s: Seq<char>, p: Seq<char>) -> bool {
    p.len() <= s.len() && s.subrange(s.len() - p.len(), s.len() as int) == p
}

/// The physical lines of a source text: split at `'\n'`, the terminator not
/// kept, with no extra empty line after a final `'\n'` (the empty text has no
/// lines at all).
pub open spec fn spec_lines(s: Seq<char>) -> Seq<Seq<char>>
    decreases s.len(),
{
    if s.len() == 0 {
        Seq::empty()
    } else if s[0] == '\n' {
        seq![Seq::empty()].add(spec_lines(s.skip(1)))
    } else {
        let rest = spec_lines(s.skip(1));
        if rest.len() == 0 {
            seq![seq![s[0]]]
        } else {
            seq![seq![s[0]].add(rest[0])].add(rest.skip(1))
        }
    }
}

/// Classification of one line. `0` = code, `1` = comment, `2` = blank; the
/// second component is the block-comment state after the line.
pub open spec fn line_class(line: Seq<char>, in_block: bool) -> (int, bool) {
    let t = trimmed(line);
    if t.len() == 0 {
        (2int, in_block)
    } else if in_block || starts_with(t, "/*"@) {
        (1int, !ends_with(t, "*/"@))
    } else if starts_with(t, "//"@) {
        (1int, false)
    } else {
        (0int, false)
    }
}

/// Counts of (code, comment, blank) over a sequence of lines, carrying the
/// block-comment state forward.
pub open spec fn spec_classify(lines: Seq<Seq<char>>, in_block: bool) -> (int, int, int)
    decreases lines.len(),
{
    if lines.len() == 0 {
        (0int, 0int, 0int)
    } else {
        let (c, next) = line_class(lines[0], in_block);
        let rest = spec_classify(lines.skip(1), next);
        (
            rest.0 + if c == 0 { 1int } else { 0int },
            rest.1 + if c == 1 { 1int } else { 0int },
            rest.2 + if c == 2 { 1int } else { 0int },
        )
    }
}

/// Every line is counted in exactly one class.
pub proof fn lemma_classify_total(lines: Seq<Seq<char>>, in_block: bool)
    ensures
        spec_classify(lines, in_block).0 + spec_classify(lines, in_block).1
            + spec_classify(lines, in_block).2 == lines.len(),
    decreases lines.len(),
{
    if lines.len() > 0 {
        let (c, next) = line_class(lines[0], in_block);
        lemma_classify_total(lines.skip(1), next);
    }
}


/// Decomposition of `spec_lines` at the first newline: if no character before
/// `j` is a newline and `j` is either a newline position or the end, then the
/// first line is exactly `s[..j]`.
proof fn lemma_lines_split(s: Seq<char>, j: int)
    requires
        s.len() > 0,
        0 <= j <= s.len(),
        forall|k: int| 0 <= k < j ==> s[k] != '\n',
        j < s.len() ==> s[j] == '\n',
    ensures
        spec_lines(s) == seq![s.subrange(0, j)].add(
            spec_lines(s.skip(if j < s.len() { j + 1 } else { j })),
        ),
    decreases s.len(),
{
    let next: int = if j < s.len() { j + 1 } else { j };
    if s[0] == '\n' {
        assert(j == 0);
        assert(s.subrange(0, 0) =~= Seq::<char>::empty());
        assert(spec_lines(s) =~~= seq![s.subrange(0, j)].add(spec_lines(s.skip(1))));
    } else {
        assert(j >= 1);
        let t = s.skip(1);
        if s.len() == 1 {
            assert(j == 1 && next == 1);
            assert(t.len() == 0);
            assert(spec_lines(s) =~~= seq![seq![s[0]]]);
            assert(s.subrange(0, 1) =~= seq![s[0]]);
            assert(spec_lines(s.skip(1)).len() == 0);
            assert(spec_lines(s) =~~= seq![s.subrange(0, j)].add(spec_lines(s.skip(next))));
        } else {
            assert(forall|k: int| 0 <= k < j - 1 ==> t[k] != '\n');
            lemma_lines_split(t, j - 1);
            let tnext: int = if j - 1 < t.len() { j } else { j - 1 };
            let rest = spec_lines(t);
            assert(rest == seq![t.subrange(0, j - 1)].add(spec_lines(t.skip(tnext))));
            assert(rest.len() > 0);
            assert(spec_lines(s) == seq![seq![s[0]].add(rest[0])].add(rest.skip(1)));
            assert(rest[0] == t.subrange(0, j - 1));
            assert(seq![s[0]].add(t.subrange(0, j - 1)) =~= s.subrange(0, j));
            assert(rest.skip(1) =~= spec_lines(t.skip(tnext)));
            assert(t.skip(tnext) =~= s.skip(next));
            assert(spec_lines(s) =~~= seq![s.subrange(0, j)].add(spec_lines(s.skip(next))));
        }
    }
}

/// Unfolding of `spec_classify` over an explicit first line.
proof fn lemma_classify_cons(l: Seq<char>, rest: Seq<Seq<char>>, in_block: bool)
    ensures
        ({
            let (c, next) = line_class(l, in_block);
            let r = spec_classify(rest, next);
            spec_classify(seq![l].add(rest), in_block) == (
                r.0 + if c == 0 { 1int } else { 0int },
                r.1 + if c == 1 { 1int } else { 0int },
                r.2 + if c == 2 { 1int } else { 0int },
            )
        }),
{
    let all = seq![l].add(rest);
    assert(all[0] == l);
    assert(all.skip(1) =~= rest);
}

/// Classify one line, given the block-comment state before it.
/// Returns the class (`0` code, `1` comment, `2` blank) and the state after.
fn classify_line(line: &Vec<char>, in_block: bool) -> (r: (u8, bool))
    ensures
        ({
            let (c, next) = line_class(line@, in_block);
            r.0 as int == c && r.1 == next
        }),
{
    let n = line.len();
    proof {
        assert(line@.skip(0) =~= line@);
    }
    let mut a: usize = 0;
    while a < n && is_space_exec(line[a])
        invariant
            0 <= a <= n,
            n == line@.len(),
            trim_front(line@) == trim_front(line@.skip(a as int)),
        decreases n - a,
    {
        proof {
            assert(line@.skip(a as int).skip(1) =~= line@.skip(a as int + 1));
        }
        a = a + 1;
    }
    if a == n {
        proof {
            assert(line@.skip(a as int) =~= Seq::<char>::empty());
            assert(trimmed(line@) =~= Seq::<char>::empty());
        }
        return (2, in_block);
    }
    // line[a] is the first non-space character.
    assert(trim_front(line@) == line@.skip(a as int));
    let mut b: usize = n - 1;
    while b > a && is_space_exec(line[b])
        invariant
            a <= b < n,
            n == line@.len(),
            !is_space(line@[a as int]),
            trim_front(line@) == line@.skip(a as int),
            trim_back(line@.skip(a as int)) == trim_back(
                line@.subrange(a as int, b as int + 1),
            ),
        decreases b,
    {
        proof {
            let cur = line@.subrange(a as int, b as int + 1);
            assert(cur[cur.len() - 1] == line@[b as int]);
            assert(cur.take(cur.len() - 1) =~= line@.subrange(a as int, b as int));
        }
        b = b - 1;
    }
    proof {
        let cur = line@.subrange(a as int, b as int + 1);
        assert(cur[cur.len() - 1] == line@[b as int]);
        assert(!is_space(line@[b as int]));
        assert(trim_back(cur) == cur);
        assert(line@.skip(a as int) =~= line@.subrange(a as int, n as int));
        assert(trimmed(line@) == line@.subrange(a as int, b as int + 1));
    }
    let ghost t = line@.subrange(a as int, b as int + 1);
    proof {
        reveal_strlit("/*");
        reveal_strlit("*/");
        reveal_strlit("//");
        assert(t.len() >= 1);
        assert(t[0] == line@[a as int]);
        assert(t[t.len() - 1] == line@[b as int]);
    }
    let opens = line[a] == '/' && a < b && line[a + 1] == '*';
    let closes = b > a && line[b - 1] == '*' && line[b] == '/';
    let slashes = line[a] == '/' && a < b && line[a + 1] == '/';
    proof {
        if a < b {
            assert(t[1] == line@[a as int + 1]);
            assert(t[t.len() - 2] == line@[b as int - 1]);
        }
        assert(opens == starts_with(t, "/*"@)) by {
            if opens {
                assert(t.subrange(0, 2) =~= "/*"@);
            } else {
                if starts_with(t, "/*"@) {
                    assert(t.subrange(0, 2) == "/*"@);
                    assert(t[0] == t.subrange(0, 2)[0] && t[1] == t.subrange(0, 2)[1]);
                    assert(t.len() >= 2);
                    assert(a < b);
                    assert(t[1] == line@[a as int + 1]);
                }
            }
        }
        assert(closes == ends_with(t, "*/"@)) by {
            if closes {
                assert(t.subrange(t.len() - 2, t.len() as int) =~= "*/"@);
            } else {
                if ends_with(t, "*/"@) {
                    assert(t.subrange(t.len() - 2, t.len() as int) == "*/"@);
                    assert(t[t.len() - 2] == t.subrange(t.len() - 2, t.len() as int)[0]);
                    assert(t[t.len() - 1] == t.subrange(t.len() - 2, t.len() as int)[1]);
                    assert(t.len() >= 2);
                    assert(a < b);
                    assert(t[t.len() - 2] == line@[b as int - 1]);
                }
            }
        }
        assert(slashes == starts_with(t, "//"@)) by {
            if slashes {
                assert(t.subrange(0, 2) =~= "//"@);
            } else {
                if starts_with(t, "//"@) {
                    assert(t.subrange(0, 2) == "//"@);
                    assert(t[0] == t.subrange(0, 2)[0] && t[1] == t.subrange(0, 2)[1]);
                    assert(t.len() >= 2);
                    assert(a < b);
                    assert(t[1] == line@[a as int + 1]);
                }
            }
        }
    }
    if in_block || opens {
        (1, !closes)
    } else if slashes {
        (1, false)
    } else {
        (0, false)
    }
}

/// Executable form of `is_space`.
fn is_space_exec(c: char) -> (r: bool)
    ensures
        r == is_space(c),
{
    ('\u{0009}' <= c && c <= '\u{000D}') || c == ' ' || c == '\u{0085}' || c == '\u{00A0}'
        || c == '\u{1680}' || ('\u{2000}' <= c && c <= '\u{200A}') || c == '\u{2028}' || c
        == '\u{2029}' || c == '\u{202F}' || c == '\u{205F}' || c == '\u{3000}'
}

/// Classify every physical line of `source` as code, comment or blank.
///
/// The three counters are mutually exclusive and together cover every
/// physical line of the text.
pub fn count_lines(source: &str) -> (stats: LOCStats)
    requires
        source@.len() <= u32::MAX,
    ensures
        ({
            let (c, m, b) = spec_classify(spec_lines(source@), false);
            stats.code == c && stats.comment == m && stats.blank == b
        }),
        stats.code + stats.comment + stats.blank == spec_lines(source@).len(),
{
    let n = source.unicode_len();
    proof {
        assert(source@.skip(0) =~= source@);
    }
    let mut p: usize = 0;
    let mut code: u32 = 0;
    let mut comment: u32 = 0;
    let mut blank: u32 = 0;
    let mut in_block: bool = false;
    while p < n
        invariant
            0 <= p <= n,
            n == source@.len(),
            n <= u32::MAX,
            code + comment + blank <= p,
            ({
                let whole = spec_classify(spec_lines(source@), false);
                let rest = spec_classify(spec_lines(source@.skip(p as int)), in_block);
                whole.0 == code + rest.0 && whole.1 == comment + rest.1 && whole.2 == blank
                    + rest.2
            }),
        decreases n - p,
    {
        let mut j: usize = p;
        let mut line: Vec<char> = Vec::new();
        while j < n && source.get_char(j) != '\n'
            invariant
                p <= j <= n,
                n == source@.len(),
                line@ =~= source@.subrange(p as int, j as int),
                forall|k: int| p <= k < j ==> source@[k] != '\n',
            decreases n - j,
        {
            let c = source.get_char(j);
            line.push(c);
            j = j + 1;
        }
        let (cls, next_block) = classify_line(&line, in_block);
        proof {
            let s = source@;
            let suf = s.skip(p as int);
            assert(suf.len() > 0);
            assert(forall|k: int| 0 <= k < j - p ==> suf[k] != '\n');
            if (j as int) < n {
                assert(suf[j - p] == s[j as int]);
            }
            lemma_lines_split(suf, j - p);
            let snext: int = if j < n { j + 1 } else { j as int };
            assert(suf.subrange(0, j - p) =~= line@);
            assert(suf.skip(if j - p < suf.len() { j - p + 1 } else { j - p }) =~= s.skip(
                snext,
            ));
            lemma_classify_cons(line@, spec_lines(s.skip(snext)), in_block);
        }
        if cls == 0 {
            code = code + 1;
        } else if cls == 1 {
            comment = comment + 1;
        } else {
            blank = blank + 1;
        }
        in_block = next_block;
        p = if j < n {
            j + 1
        } else {
            j
        };
    }
    proof {
        assert(source@.skip(p as int) =~= Seq::<char>::empty());
        lemma_classify_total(spec_lines(source@), false);
    }
    LOCStats { code, comment, blank }
}

} // verus!
