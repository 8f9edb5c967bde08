use vstd::prelude::*;

verus! {

/// Where the first separator of `s` is, or its length if it has none.
pub open spec fn sep_index(s: Seq<char>) -> int
    decreases s.len(),
{
    if s.len() == 0 {
        0
    } else if s[0] == '/' {
        0
    } else {
        1 + sep_index(s.drop_first())
    }
}

/// The components of the part of a path after its start: the pieces between
/// separators, leaving out empty pieces and `.`.
pub open spec fn body_components(s: Seq<char>) -> Seq<Seq<char>>
    decreases s.len(),
{
    if s.len() == 0 {
        Seq::empty()
    } else {
        let i = sep_index(s);
        let part = s.take(i);
        let rest = if i < s.len() {
            s.skip(i + 1)
        } else {
            Seq::<char>::empty()
        };
        let tail = if 0 <= i <= s.len() {
            body_components(rest)
        } else {
            Seq::empty()
        };
        if part.len() == 0 || part == seq!['.'] {
            tail
        } else {
            seq![part] + tail
        }
    }
}

/// The components of a path: `/` for a leading separator, `.` when the
/// path starts with `.` alone, then the pieces between separators, leaving
/// out empty pieces and `.`.
pub open spec fn path_components(s: Seq<char>) -> Seq<Seq<char>> {
    if s.len() > 0 && s[0] == '/' {
        seq![seq!['/']] + body_components(s.skip(1))
    } else if s.len() > 0 && s[0] == '.' && (s.len() == 1 || s[1] == '/') {
        seq![seq!['.']] + body_components(s.skip(1))
    } else {
        body_components(s)
    }
}

/// `c` appended to the path `buf`: an absolute `c` replaces it; otherwise a
/// separator goes between them unless `buf` is empty or ends with one.
pub open spec fn pushed_path(buf: Seq<char>, c: Seq<char>) -> Seq<char> {
    if c.len() > 0 && c[0] == '/' {
        c
    } else if buf.len() > 0 && buf.last() != '/' {
        buf + seq!['/'] + c
    } else {
        buf + c
    }
}

/// The path made of the components `cs`, pushed one after the other.
pub open spec fn path_of(cs: Seq<Seq<char>>) -> Seq<char>
    decreases cs.len(),
{
    if cs.len() == 0 {
        Seq::empty()
    } else {
        pushed_path(path_of(cs.drop_last()), cs.last())
    }
}

/// How many leading components `a` and `b` share.
pub open spec fn common_len(a: Seq<Seq<char>>, b: Seq<Seq<char>>) -> nat
    decreases a.len(),
{
    if a.len() == 0 || b.len() == 0 || a[0] != b[0] {
        0
    } else {
        1 + common_len(a.drop_first(), b.drop_first())
    }
}

/// The shared count is the longest common leading run: the components
/// agree below it, and at it they differ or one of the paths has ended.
pub proof fn law_common_len_is_longest_shared_start(a: Seq<Seq<char>>, b: Seq<Seq<char>>)
    ensures
        common_len(a, b) <= a.len(),
        common_len(a, b) <= b.len(),
        forall|k: int| 0 <= k < common_len(a, b) ==> a[k] == b[k],
        common_len(a, b) < a.len() && common_len(a, b) < b.len() ==> a[common_len(a, b) as int]
            != b[common_len(a, b) as int],
    decreases a.len(),
{
    if a.len() > 0 && b.len() > 0 && a[0] == b[0] {
        law_common_len_is_longest_shared_start(a.drop_first(), b.drop_first());
        let n = common_len(a, b);
        assert forall|k: int| 0 <= k < n implies a[k] == b[k] by {
            if k > 0 {
                assert(a[k] == a.drop_first()[k - 1]);
                assert(b[k] == b.drop_first()[k - 1]);
            }
        }
        if n < a.len() && n < b.len() {
            assert(a[n as int] == a.drop_first()[n - 1]);
            assert(b[n as int] == b.drop_first()[n - 1]);
        }
    }
}

/// The path of `file` seen from the directory of `root`: for `n` the length
/// of the longest run of leading components that the two paths share, one
/// `../` for each component of `root` past the run but its last (the file
/// name), then the components of `file` past the run.
pub proof fn law_relative_path_from_shared_start(root: Seq<char>, file: Seq<char>, n: int)
    requires
        ({
            let l = path_components(root);
            let r = path_components(file);
            &&& 0 <= n <= l.len()
            &&& n <= r.len()
            &&& forall|k: int| 0 <= k < n ==> l[k] == r[k]
            &&& n < l.len() && n < r.len() ==> l[n] != r[n]
        }),
    ensures
        ({
            let l = path_components(root);
            let r = path_components(file);
            relative_path(root, file) == pushed_path(
                if l.len() - n <= 1 {
                    Seq::<char>::empty()
                } else {
                    ups((l.len() - n - 1) as nat)
                },
                path_of(r.skip(n)),
            )
        }),
{
    let l = path_components(root);
    let r = path_components(file);
    law_common_len_is_longest_shared_start(l, r);
    let c = common_len(l, r) as int;
    if c < n {
        assert(l[c] == r[c]);
    } else if n < c {
        assert(l[n] == r[n]);
    }
    assert(c == n);
}

/// `../` `n` times.
pub open spec fn ups(n: nat) -> Seq<char>
    decreases n,
{
    if n == 0 {
        Seq::empty()
    } else {
        ups((n - 1) as nat) + seq!['.', '.', '/']
    }
}

/// The path of `file` seen from the directory of `root`: one `../` for each
/// component of `root` past the shared ones but its last, then the
/// components of `file` past the shared ones.
pub open spec fn relative_path(root: Seq<char>, file: Seq<char>) -> Seq<char> {
    let l = path_components(root);
    let r = path_components(file);
    let cnt = common_len(l, r);
    let prefix = if l.len() - cnt <= 1 {
        Seq::empty()
    } else {
        ups((l.len() - cnt - 1) as nat)
    };
    pushed_path(prefix, path_of(r.skip(cnt as int)))
}

proof fn lemma_sep_index(t: Seq<char>, k: int)
    requires
        0 <= k <= t.len(),
        forall|m: int| 0 <= m < k ==> t[m] != '/',
        k == t.len() || t[k] == '/',
    ensures
        sep_index(t) == k,
    decreases k,
{
    if k > 0 {
        lemma_sep_index(t.drop_first(), k - 1);
    }
}

fn char_count(s: &str) -> (r: usize)
    ensures
        r == s@.len(),
{
    s.unicode_len()
}

/// The components of the part of `s` from `start` on.
fn body_components_exec(s: &str, start: usize) -> (r: Vec<String>)
    requires
        start <= s@.len(),
    ensures
        r.deep_view() == body_components(s@.skip(start as int)),
{
    let n = char_count(s);
    let ghost sv = s@;
    let mut out: Vec<String> = Vec::new();
    let mut pos = start;
    while pos < n
        invariant
            n == sv.len(),
            sv == s@,
            start <= pos <= n,
            body_components(sv.skip(start as int)) == out.deep_view() + body_components(
                sv.skip(pos as int),
            ),
        decreases n - pos,
    {
        let mut j = pos;
        while j < n && s.get_char(j) != '/'
            invariant
                pos <= j <= n,
                n == sv.len(),
                sv == s@,
                forall|m: int| pos <= m < j ==> sv[m] != '/',
            decreases n - j,
        {
            j = j + 1;
        }
        let ghost t = sv.skip(pos as int);
        proof {
            lemma_sep_index(t, j - pos);
            assert(t.take(j - pos) =~= sv.subrange(pos as int, j as int));
            if j < n {
                assert(t.skip(j - pos + 1) =~= sv.skip(j + 1));
            }
        }
        let part = s.substring_char(pos, j);
        let keep = !(j == pos || (j == pos + 1 && s.get_char(pos) == '.'));
        proof {
            if j == pos + 1 {
                assert(part@ == seq![sv[pos as int]]);
            }
            if part@.len() == 1 {
                assert(j == pos + 1);
            }
        }
        if keep {
            let owned = part.to_owned();
            let ghost before = out.deep_view();
            out.push(owned);
            proof {
                assert(out.deep_view() =~= before.push(part@));
                assert(before.push(part@) + body_components(sv.skip(j + 1)) =~= before + (seq![part@]
                    + body_components(sv.skip(j + 1))));
            }
        }
        if j < n {
            pos = j + 1;
        } else {
            proof {
                assert(sv.skip(n as int) =~= Seq::<char>::empty());
            }
            pos = n;
        }
    }
    proof {
        assert(sv.skip(pos as int) =~= Seq::<char>::empty());
        assert(out.deep_view() + Seq::<Seq<char>>::empty() =~= out.deep_view());
    }
    out
}

/// The components of the path `s`.
pub fn path_components_exec(s: &str) -> (r: Vec<String>)
    ensures
        r.deep_view() == path_components(s@),
{
    let n = char_count(s);
    if n > 0 && s.get_char(0) == '/' {
        proof {
            reveal_strlit("/");
        }
        let head = "/".to_owned();
        assert(head@ =~= seq!['/']);
        let mut r: Vec<String> = Vec::new();
        r.push(head);
        let mut rest = body_components_exec(s, 1);
        let ghost a = r.deep_view();
        let ghost b = rest.deep_view();
        assert(a =~= seq![seq!['/']]);
        r.append(&mut rest);
        assert(r.deep_view() =~= a + b);
        r
    } else if n > 0 && s.get_char(0) == '.' && (n == 1 || s.get_char(1) == '/') {
        proof {
            reveal_strlit(".");
        }
        let head = ".".to_owned();
        assert(head@ =~= seq!['.']);
        let mut r: Vec<String> = Vec::new();
        r.push(head);
        let mut rest = body_components_exec(s, 1);
        let ghost a = r.deep_view();
        let ghost b = rest.deep_view();
        assert(a =~= seq![seq!['.']]);
        r.append(&mut rest);
        assert(r.deep_view() =~= a + b);
        r
    } else {
        let r = body_components_exec(s, 0);
        assert(s@.skip(0) =~= s@);
        r
    }
}

/// `c` appended to the path `buf`.
fn push_path(buf: String, c: &str) -> (r: String)
    ensures
        r@ == pushed_path(buf@, c@),
{
    let cn = char_count(c);
    if cn > 0 && c.get_char(0) == '/' {
        return c.to_owned();
    }
    let bn = char_count(buf.as_str());
    let mut buf = buf;
    if bn > 0 && buf.as_str().get_char(bn - 1) != '/' {
        let ghost b0 = buf@;
        buf.append("/");
        proof {
            reveal_strlit("/");
        }
        buf.append(c);
        assert(buf@ =~= b0 + seq!['/'] + c@);
    } else {
        buf.append(c);
    }
    buf
}

/// The path of `file` seen from the directory of `root`.
pub fn relative(root: &str, file: &str) -> (r: String)
    ensures
        r@ == relative_path(root@, file@),
{
    let l = path_components_exec(root);
    let r = path_components_exec(file);
    let ghost lv = l.deep_view();
    let ghost rv = r.deep_view();
    let mut cnt: usize = 0;
    assert(lv.skip(0) =~= lv);
    assert(rv.skip(0) =~= rv);
    while cnt < l.len() && cnt < r.len() && l[cnt] == r[cnt]
        invariant
            cnt <= l@.len(),
            cnt <= r@.len(),
            lv == l.deep_view(),
            rv == r.deep_view(),
            common_len(lv, rv) == cnt + common_len(lv.skip(cnt as int), rv.skip(cnt as int)),
        decreases l@.len() - cnt,
    {
        proof {
            assert(lv.skip(cnt as int).drop_first() =~= lv.skip(cnt + 1));
            assert(rv.skip(cnt as int).drop_first() =~= rv.skip(cnt + 1));
        }
        cnt = cnt + 1;
    }
    proof {
        if cnt < l.len() && cnt < r.len() {
            assert(lv.skip(cnt as int)[0] == l@[cnt as int]@);
            assert(rv.skip(cnt as int)[0] == r@[cnt as int]@);
        }
        assert(common_len(lv.skip(cnt as int), rv.skip(cnt as int)) == 0);
    }
    let mut prefix = String::new();
    if l.len() - cnt > 1 {
        let k = l.len() - cnt - 1;
        let mut i: usize = 0;
        while i < k
            invariant
                i <= k,
                prefix@ == ups(i as nat),
            decreases k - i,
        {
            let ghost p0 = prefix@;
            prefix.append("../");
            proof {
                reveal_strlit("../");
                assert(prefix@ =~= p0 + seq!['.', '.', '/']);
            }
            i = i + 1;
        }
    }
    let mut rest = String::new();
    let mut j = cnt;
    assert(rv.skip(cnt as int).take(0) =~= Seq::<Seq<char>>::empty());
    while j < r.len()
        invariant
            cnt <= j <= r@.len(),
            rv == r.deep_view(),
            rest@ == path_of(rv.skip(cnt as int).take(j - cnt)),
        decreases r@.len() - j,
    {
        let ghost cs = rv.skip(cnt as int).take(j + 1 - cnt);
        assert(cs.drop_last() =~= rv.skip(cnt as int).take(j - cnt));
        assert(cs.last() == r@[j as int]@);
        rest = push_path(rest, r[j].as_str());
        j = j + 1;
    }
    assert(rv.skip(cnt as int).take(j - cnt) =~= rv.skip(cnt as int));
    push_path(prefix, rest.as_str())
}

} // verus!
