use vstd::prelude::*;

use crate::launch::texts;
use crate::text::{trim_string, trim_white};

verus! {

/// Whether an operating-system error code (`std::io::Error::raw_os_error`)
/// says that a rename cannot be done in place: `EEXIST` or `EXDEV`.
pub open spec fn cross_device_code(code: Option<i32>) -> bool {
    code == Some(17i32) || code == Some(18i32)
}

/// Decides from the raw OS error code whether a move must fall back to copy
/// and delete.
pub fn is_cross_device_error(raw_os_error: Option<i32>) -> (r: bool)
    ensures
        r == cross_device_code(raw_os_error),
{
    match raw_os_error {
        Some(code) => code == 17 || code == 18,
        None => false,
    }
}

/// Characters that an entry name may not hold.
pub open spec fn forbidden_in_name(c: char) -> bool {
    c == '/' || c == '\\' || c == ':' || c == '*' || c == '?' || c == '"' || c == '<' || c == '>'
        || c == '|'
}

/// The name a file or folder gets from what was typed: trimmed; refused when
/// empty, `.` or `..`, or when it holds a forbidden character.
pub open spec fn entry_name(raw: Seq<char>) -> Result<Seq<char>, Seq<char>> {
    let t = trim_white(raw);
    if t.len() == 0 {
        Err("the name must not be empty"@)
    } else if t == "."@ || t == ".."@ {
        Err("the name must not be . or .."@)
    } else if exists|i: int| 0 <= i < t.len() && forbidden_in_name(t[i]) {
        Err("the name holds a character that is not allowed"@)
    } else {
        Ok(t)
    }
}

pub open spec fn result_text(r: Result<String, String>) -> Result<Seq<char>, Seq<char>> {
    match r {
        Ok(s) => Ok(s@),
        Err(e) => Err(e@),
    }
}

fn forbidden_char(c: char) -> (r: bool)
    ensures
        r == forbidden_in_name(c),
{
    c == '/' || c == '\\' || c == ':' || c == '*' || c == '?' || c == '"' || c == '<' || c == '>'
        || c == '|'
}

/// Checks and trims a name for a new or renamed file or folder.
pub fn normalize_entry_name(raw: &str) -> (r: Result<String, String>)
    ensures
        result_text(r) == entry_name(raw@),
{
    let t = trim_string(raw);
    let n = t.unicode_len();
    if n == 0 {
        return Err(String::from_str("the name must not be empty"));
    }
    if t == String::from_str(".") || t == String::from_str("..") {
        return Err(String::from_str("the name must not be . or .."));
    }
    let s = t.as_str();
    let mut i: usize = 0;
    while i < n
        invariant
            i <= n == s@.len(),
            s@ == t@,
            t@ == trim_white(raw@),
            t@ != "."@ && t@ != ".."@,
            forall|k: int| 0 <= k < i ==> !forbidden_in_name(s@[k]),
        decreases n - i,
    {
        if forbidden_char(s.get_char(i)) {
            assert(forbidden_in_name(t@[i as int]));
            return Err(String::from_str("the name holds a character that is not allowed"));
        }
        i = i + 1;
    }
    Ok(t)
}

/// What a plugin manifest that does not say otherwise is: enabled.
pub fn default_enabled() -> (r: bool)
    ensures
        r,
{
    true
}

/// Index of the first `x` in `t`, or `t.len()` when there is none.
pub open spec fn char_index(t: Seq<char>, x: char) -> nat
    decreases t.len(),
{
    if t.len() == 0 {
        0
    } else if t[0] == x {
        0
    } else {
        1 + char_index(t.drop_first(), x)
    }
}

/// The pieces of a path between its separators, empty ones included.
pub open spec fn path_pieces(s: Seq<char>) -> Seq<Seq<char>>
    decreases s.len(),
{
    let k = char_index(s, '/');
    if k < s.len() {
        seq![s.subrange(0, k as int)] + path_pieces(s.subrange(k + 1 as int, s.len() as int))
    } else {
        seq![s]
    }
}

pub open spec fn is_normal_piece(p: Seq<char>) -> bool {
    p.len() > 0 && p != "."@
}

/// The components of a relative path that name something: empty pieces and
/// `.` are dropped.
pub open spec fn normal_parts(s: Seq<char>) -> Seq<Seq<char>> {
    path_pieces(s).filter(|p: Seq<char>| is_normal_piece(p))
}

/// Parts joined with single separators.
pub open spec fn joined(parts: Seq<Seq<char>>) -> Seq<char>
    decreases parts.len(),
{
    if parts.len() == 0 {
        Seq::empty()
    } else if parts.len() == 1 {
        parts[0]
    } else {
        joined(parts.drop_last()) + seq!['/'] + parts.last()
    }
}

/// Where a file of a plugin package is unpacked, relative to the target
/// directory: refused when the name is absolute or climbs out with `..`.
pub open spec fn archive_path(raw: Seq<char>) -> Result<Seq<char>, Seq<char>> {
    if raw.len() > 0 && raw[0] == '/' {
        Err("the package holds an absolute path"@)
    } else if normal_parts(raw).contains(".."@) {
        Err("the package holds a path that leaves its root"@)
    } else {
        Ok(joined(normal_parts(raw)))
    }
}

fn find_char(s: &str, lo: usize, hi: usize, x: char) -> (r: usize)
    requires
        lo <= hi <= s@.len(),
    ensures
        r <= hi - lo,
        r as nat == char_index(s@.subrange(lo as int, hi as int), x),
{
    let mut i = lo;
    while i < hi
        invariant
            lo <= i <= hi <= s@.len(),
            char_index(s@.subrange(lo as int, hi as int), x) == (i - lo) + char_index(
                s@.subrange(i as int, hi as int),
                x,
            ),
        decreases hi - i,
    {
        if s.get_char(i) == x {
            return i - lo;
        }
        assert(s@.subrange(i as int, hi as int).drop_first() =~= s@.subrange(i + 1, hi as int));
        i = i + 1;
    }
    i - lo
}

/// Checks the name of a file in a plugin package and gives the relative path
/// it is unpacked to.
pub fn sanitize_archive_path(raw: &str) -> (r: Result<String, String>)
    ensures
        result_text(r) == archive_path(raw@),
{
    let n = raw.unicode_len();
    if n > 0 && raw.get_char(0) == '/' {
        return Err(String::from_str("the package holds an absolute path"));
    }
    let dot = String::from_str(".");
    let ghost pred = |p: Seq<char>| is_normal_piece(p);
    let mut parts: Vec<String> = Vec::new();
    let mut i: usize = 0;
    let mut more = true;
    assert(raw@.subrange(0, n as int) =~= raw@);
    while more
        invariant
            i <= n == raw@.len(),
            raw@.len() == 0 || raw@[0] != '/',
            dot@ == "."@,
            pred == (|p: Seq<char>| is_normal_piece(p)),
            normal_parts(raw@) == texts(parts@) + (if more {
                normal_parts(raw@.subrange(i as int, n as int))
            } else {
                Seq::empty()
            }),
        decreases n - i + (if more {
            1int
        } else {
            0int
        }),
    {
        let ghost t = raw@.subrange(i as int, n as int);
        let k = find_char(raw, i, n, '/');
        let piece = String::from_str(raw.substring_char(i, i + k));
        let ghost before = parts@;
        let ghost head = seq![t.subrange(0, k as int)];
        let ghost rest = if k < t.len() {
            path_pieces(t.subrange(k + 1 as int, t.len() as int))
        } else {
            Seq::<Seq<char>>::empty()
        };
        assert(piece@ =~= t.subrange(0, k as int));
        assert(path_pieces(t) == head + rest) by {
            if k >= t.len() {
                assert(t.subrange(0, k as int) =~= t);
                assert(head + rest =~= seq![t]);
            }
        }
        proof {
            Seq::filter_distributes_over_add(head, rest, pred);
            reveal(Seq::filter);
            assert(head.drop_last() =~= Seq::<Seq<char>>::empty());
            assert(Seq::<Seq<char>>::empty().filter(pred) =~= Seq::<Seq<char>>::empty());
            assert(head.filter(pred) == (if pred(head[0]) {
                seq![head[0]]
            } else {
                Seq::<Seq<char>>::empty()
            }));
            assert(normal_parts(t) == head.filter(pred) + rest.filter(pred));
        }
        if piece.unicode_len() > 0 && !(piece == dot) {
            parts.push(piece);
            assert(texts(parts@) =~= texts(before).push(t.subrange(0, k as int)));
        }
        if i + k < n {
            assert(t.subrange(k + 1 as int, t.len() as int) =~= raw@.subrange(i + k + 1, n as int));
            i = i + k + 1;
        } else {
            more = false;
        }
    }
    assert(texts(parts@) + Seq::<Seq<char>>::empty() =~= texts(parts@));
    let dotdot = String::from_str("..");
    let mut j: usize = 0;
    while j < parts.len()
        invariant
            j <= parts@.len(),
            raw@.len() == 0 || raw@[0] != '/',
            dotdot@ == ".."@,
            normal_parts(raw@) == texts(parts@),
            forall|m: int| 0 <= m < j ==> parts@[m]@ != ".."@,
        decreases parts@.len() - j,
    {
        if parts[j] == dotdot {
            assert(texts(parts@)[j as int] == ".."@);
            return Err(String::from_str("the package holds a path that leaves its root"));
        }
        j = j + 1;
    }
    assert(!normal_parts(raw@).contains(".."@));
    let mut out = String::new();
    let mut m: usize = 0;
    while m < parts.len()
        invariant
            m <= parts@.len(),
            raw@.len() == 0 || raw@[0] != '/',
            normal_parts(raw@) == texts(parts@),
            !normal_parts(raw@).contains(".."@),
            out@ == joined(texts(parts@).subrange(0, m as int)),
        decreases parts@.len() - m,
    {
        let ghost pv = texts(parts@);
        assert(pv.subrange(0, m + 1).drop_last() =~= pv.subrange(0, m as int));
        if m > 0 {
            out.push('/');
        }
        out.append(parts[m].as_str());
        m = m + 1;
        assert(m == 1 ==> out@ =~= pv.subrange(0, 1)[0]);
    }
    assert(texts(parts@).subrange(0, m as int) =~= texts(parts@));
    Ok(out)
}

} // verus!
