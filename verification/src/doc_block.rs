use vstd::prelude::*;

verus! {

/// Where the first line break of `s` is, or its length if it has none.
pub open spec fn line_end(s: Seq<char>) -> int
    decreases s.len(),
{
    if s.len() == 0 {
        0
    } else if s[0] == '\n' {
        0
    } else {
        1 + line_end(s.drop_first())
    }
}

/// The lines of a text as `str::lines` gives them: split after each `\n`,
/// which is dropped with a `\r` just before it; a final line break makes no
/// empty last line.
pub open spec fn split_lines(s: Seq<char>) -> Seq<Seq<char>>
    decreases s.len(),
{
    if s.len() == 0 {
        Seq::empty()
    } else {
        let k = line_end(s);
        if 0 <= k < s.len() {
            let raw = s.take(k);
            let line = if raw.len() > 0 && raw.last() == '\r' {
                raw.drop_last()
            } else {
                raw
            };
            seq![line] + split_lines(s.skip(k + 1))
        } else {
            seq![s]
        }
    }
}

/// Where the first of `lines` equal to `line` at or after `from` is.
pub open spec fn first_at(lines: Seq<Seq<char>>, line: Seq<char>, from: int, i: int) -> bool {
    &&& from <= i < lines.len()
    &&& lines[i] == line
    &&& forall|j: int| from <= j < i ==> lines[j] != line
}

/// Whether no line at or after `from` is `line`.
pub open spec fn absent_from(lines: Seq<Seq<char>>, line: Seq<char>, from: int) -> bool {
    forall|j: int| from <= j < lines.len() ==> lines[j] != line
}

/// `n` indentations of two tabs.
pub open spec fn tabs(n: nat) -> Seq<char>
    decreases n,
{
    if n == 0 {
        Seq::empty()
    } else {
        tabs((n - 1) as nat) + seq!['\t', '\t']
    }
}

/// What line `i` adds to a rendered block: nothing outside the block; in it
/// the line indented, or nothing for an empty line, then a line break.
pub open spec fn rendered_line(i: int, line: Seq<char>, first: int, last: int, indent: nat) -> Seq<char> {
    if first <= i <= last {
        (if line.len() > 0 {
            tabs(indent) + seq![' ', ' '] + line
        } else {
            Seq::empty()
        }) + seq!['\n']
    } else {
        Seq::empty()
    }
}

/// What the lines add to a rendered block, in order.
pub open spec fn rendered_lines(lines: Seq<Seq<char>>, first: int, last: int, indent: nat) -> Seq<char>
    decreases lines.len(),
{
    if lines.len() == 0 {
        Seq::empty()
    } else {
        rendered_lines(lines.drop_last(), first, last, indent) + rendered_line(
            lines.len() - 1,
            lines.last(),
            first,
            last,
            indent,
        )
    }
}

/// The lines `first` to `last` of a text, to be shown as an indented block
/// of the documentation.
pub struct LoadBlock {
    body: String,
    first: usize,
    last: usize,
    indent: usize,
}

impl LoadBlock {
    pub closed spec fn spec_body(&self) -> Seq<char> {
        self.body@
    }

    pub closed spec fn spec_first(&self) -> usize {
        self.first
    }

    pub closed spec fn spec_last(&self) -> usize {
        self.last
    }

    pub closed spec fn spec_indent(&self) -> usize {
        self.indent
    }

    /// The block, as the documentation shows it: `>` on a line of its own,
    /// each line of the block indented (an empty one left empty), and `<`.
    pub fn render(&self) -> (r: String)
        ensures
            r@ == seq!['>', '\n'] + rendered_lines(
                split_lines(self.spec_body()),
                self.spec_first() as int,
                self.spec_last() as int,
                self.spec_indent() as nat,
            ) + seq!['<'],
    {
        let lines = lines_of(self.body.as_str());
        let ghost ls = lines.deep_view();
        let mut b = String::new();
        proof {
            reveal_strlit(">\n");
        }
        b.append(">\n");
        let mut i: usize = 0;
        assert(ls.take(0) =~= Seq::<Seq<char>>::empty());
        while i < lines.len()
            invariant
                ls == lines.deep_view(),
                i <= ls.len(),
                b@ == seq!['>', '\n'] + rendered_lines(
                    ls.take(i as int),
                    self.first as int,
                    self.last as int,
                    self.indent as nat,
                ),
            decreases ls.len() - i,
        {
            let ghost b0 = b@;
            let l = &lines[i];
            proof {
                let t = ls.take(i + 1);
                assert(t.drop_last() =~= ls.take(i as int));
                assert(t.last() == l@);
            }
            if self.first <= i && i <= self.last {
                if l.as_str().unicode_len() > 0 {
                    let mut k: usize = 0;
                    assert(tabs(0) =~= Seq::<char>::empty());
                    while k < self.indent
                        invariant
                            k <= self.indent,
                            b@ == b0 + tabs(k as nat),
                        decreases self.indent - k,
                    {
                        proof {
                            reveal_strlit("\t\t");
                        }
                        b.append("\t\t");
                        k = k + 1;
                        assert(b@ =~= b0 + tabs(k as nat));
                    }
                    proof {
                        reveal_strlit("  ");
                    }
                    b.append("  ");
                    b.append(l.as_str());
                }
                proof {
                    reveal_strlit("\n");
                }
                b.append("\n");
                assert(b@ =~= b0 + rendered_line(
                    i as int,
                    ls[i as int],
                    self.first as int,
                    self.last as int,
                    self.indent as nat,
                ));
            } else {
                assert(b@ =~= b0 + rendered_line(
                    i as int,
                    ls[i as int],
                    self.first as int,
                    self.last as int,
                    self.indent as nat,
                ));
            }
            i = i + 1;
        }
        assert(ls.take(i as int) =~= ls);
        proof {
            reveal_strlit("<");
        }
        b.append("<");
        b
    }
}

proof fn lemma_line_end(t: Seq<char>, k: int)
    requires
        0 <= k <= t.len(),
        forall|m: int| 0 <= m < k ==> #[trigger] t[m] != '\n',
        k == t.len() || t[k] == '\n',
    ensures
        line_end(t) == k,
    decreases k,
{
    if k > 0 {
        lemma_line_end(t.drop_first(), k - 1);
    }
}

/// The lines of `text`, as `str::lines` gives them.
pub fn lines_of(text: &str) -> (r: Vec<String>)
    ensures
        r.deep_view() == split_lines(text@),
{
    let n = text.unicode_len();
    let ghost s = text@;
    let mut out: Vec<String> = Vec::new();
    let mut pos: usize = 0;
    assert(s.skip(0) =~= s);
    while pos < n
        invariant
            n == s.len(),
            s == text@,
            pos <= n,
            split_lines(s) == out.deep_view() + split_lines(s.skip(pos as int)),
        decreases n - pos,
    {
        let mut j = pos;
        while j < n && text.get_char(j) != '\n'
            invariant
                pos <= j <= n,
                n == s.len(),
                s == text@,
                forall|m: int| pos <= m < j ==> #[trigger] s[m] != '\n',
            decreases n - j,
        {
            j = j + 1;
        }
        let ghost t = s.skip(pos as int);
        proof {
            assert forall|m: int| 0 <= m < j - pos implies #[trigger] t[m] != '\n' by {
                assert(t[m] == s[m + pos]);
            }
            if j < n {
                assert(t[j - pos] == s[j as int]);
            }
            lemma_line_end(t, j - pos);
        }
        let ghost before = out.deep_view();
        if j < n {
            let end = if j > pos && text.get_char(j - 1) == '\r' {
                j - 1
            } else {
                j
            };
            let line = text.substring_char(pos, end).to_owned();
            proof {
                let raw = t.take(j - pos);
                assert(raw =~= s.subrange(pos as int, j as int));
                if j > pos {
                    assert(raw.last() == s[j - 1]);
                }
                if end < j {
                    assert(line@ =~= raw.drop_last());
                } else {
                    assert(line@ =~= raw);
                }
                assert(t.skip(j - pos + 1) =~= s.skip(j + 1));
            }
            out.push(line);
            proof {
                assert(out.deep_view() =~= before.push(line@));
                assert(before.push(line@) + split_lines(s.skip(j + 1)) =~= before + (seq![line@]
                    + split_lines(s.skip(j + 1))));
            }
            pos = j + 1;
        } else {
            let line = text.substring_char(pos, n).to_owned();
            proof {
                assert(line@ =~= t);
            }
            out.push(line);
            proof {
                assert(out.deep_view() =~= before.push(line@));
                assert(s.skip(n as int) =~= Seq::<char>::empty());
                assert(out.deep_view() =~= before + seq![t]);
            }
            pos = n;
            assert(split_lines(s.skip(pos as int)) =~= Seq::<Seq<char>>::empty());
            assert(out.deep_view() + Seq::<Seq<char>>::empty() =~= out.deep_view());
        }
    }
    assert(s.skip(pos as int) =~= Seq::<char>::empty());
    assert(out.deep_view() + Seq::<Seq<char>>::empty() =~= out.deep_view());
    out
}

/// Whether two texts are the same.
fn same_text(a: &str, b: &str) -> (r: bool)
    ensures
        r == (a@ == b@),
{
    let n = a.unicode_len();
    let m = b.unicode_len();
    if n != m {
        return false;
    }
    let mut k: usize = 0;
    while k < n
        invariant
            n == a@.len(),
            m == b@.len(),
            n == m,
            k <= n,
            forall|j: int| 0 <= j < k ==> a@[j] == b@[j],
        decreases n - k,
    {
        if a.get_char(k) != b.get_char(k) {
            return false;
        }
        k = k + 1;
    }
    assert(a@ =~= b@);
    true
}

/// Where the first line equal to `line` at or after `from` is.
fn find_line(lines: &Vec<String>, line: &str, from: usize) -> (r: Option<usize>)
    requires
        from <= lines@.len(),
    ensures
        match r {
            Some(i) => first_at(lines.deep_view(), line@, from as int, i as int),
            None => absent_from(lines.deep_view(), line@, from as int),
        },
{
    let mut i = from;
    while i < lines.len()
        invariant
            from <= i <= lines@.len(),
            forall|j: int| from <= j < i ==> #[trigger] lines.deep_view()[j] != line@,
        decreases lines@.len() - i,
    {
        if same_text(lines[i].as_str(), line) {
            return Some(i);
        }
        i = i + 1;
    }
    None
}

/// Whether `lines` lack the block from `first` to `last`: no line is
/// `first`, or `last` differs from it and no line after the first `first`
/// is `last`.
pub open spec fn block_missing(lines: Seq<Seq<char>>, first: Seq<char>, last: Seq<char>) -> bool {
    absent_from(lines, first, 0) || exists|f: int|
        first_at(lines, first, 0, f) && first != last && absent_from(lines, last, f + 1)
}

/// The block of `body` from the first line equal to `first_line` to the
/// next line after it equal to `last_line` (the same line when both are
/// the same); nothing when one is not found.
pub fn find_block(body: String, first_line: &str, last_line: &str, indent: usize) -> (r: Option<LoadBlock>)
    ensures
        ({
            let ls = split_lines(body@);
            match r {
                Some(b) => {
                    &&& b.spec_body() == body@
                    &&& b.spec_indent() == indent
                    &&& first_at(ls, first_line@, 0, b.spec_first() as int)
                    &&& if first_line@ == last_line@ {
                        b.spec_last() == b.spec_first()
                    } else {
                        first_at(ls, last_line@, b.spec_first() + 1, b.spec_last() as int)
                    }
                },
                None => block_missing(ls, first_line@, last_line@),
            }
        }),
{
    let lines = lines_of(body.as_str());
    let first = match find_line(&lines, first_line, 0) {
        Some(i) => i,
        None => {
            return None;
        },
    };
    let count = lines.len();
    assert(lines.deep_view().len() == count);
    assert(first < count);
    assert(first_at(split_lines(body@), first_line@, 0, first as int));
    let last = if same_text(first_line, last_line) {
        first
    } else {
        match find_line(&lines, last_line, first + 1) {
            Some(i) => i,
            None => {
                return None;
            },
        }
    };
    Some(LoadBlock { body, first, last, indent })
}

/// The block of `body` from the first line equal to `first_line` to the
/// next line after it equal to `last_line` (the same line when both are
/// the same), where `body` has both lines.
pub fn load_block(body: String, first_line: &str, last_line: &str, indent: usize) -> (r: LoadBlock)
    requires
        !block_missing(split_lines(body@), first_line@, last_line@),
    ensures
        ({
            let ls = split_lines(body@);
            &&& r.spec_body() == body@
            &&& r.spec_indent() == indent
            &&& first_at(ls, first_line@, 0, r.spec_first() as int)
            &&& if first_line@ == last_line@ {
                r.spec_last() == r.spec_first()
            } else {
                first_at(ls, last_line@, r.spec_first() + 1, r.spec_last() as int)
            }
        }),
{
    match find_block(body, first_line, last_line, indent) {
        Some(b) => b,
        None => {
            assert(false);
            LoadBlock { body: String::new(), first: 0, last: 0, indent }
        },
    }
}

} // verus!
