//! Text helpers behind receipt file names: decimal row numbers, label
//! sanitizing, and splitting a path into its directory and file name.

use vstd::prelude::*;

verus! {

/// The character of decimal digit `d` (for `d < 10`).
pub open spec fn digit_char(d: nat) -> char {
    "0123456789"@[d as int]
}

/// Decimal digits of `n`, most significant first, without leading zeros.
pub open spec fn decimal(n: nat) -> Seq<char>
    decreases n,
{
    if n < 10 {
        seq![digit_char(n)]
    } else {
        decimal(n / 10).push(digit_char(n % 10))
    }
}

/// `s` with `'0'` in front until it is at least `width` long.
pub open spec fn zero_pad(s: Seq<char>, width: nat) -> Seq<char> {
    if s.len() < width {
        Seq::new((width - s.len()) as nat, |_i: int| '0') + s
    } else {
        s
    }
}

/// A row number as it starts a receipt name: decimal, zero-padded to width three.
pub open spec fn index_text(n: nat) -> Seq<char> {
    zero_pad(decimal(n), 3)
}

/// The decimal digits of `n`.
fn decimal_digits(n: usize) -> (r: String)
    ensures
        r@ == decimal(n as nat),
    decreases n,
{
    let digits = "0123456789";
    proof {
        reveal_strlit("0123456789");
    }
    if n < 10 {
        let mut r = String::new();
        r.append(digits.substring_char(n, n + 1));
        r
    } else {
        let mut r = decimal_digits(n / 10);
        let d: usize = n % 10;
        r.append(digits.substring_char(d, d + 1));
        proof {
            assert(digits@.subrange(d as int, d + 1) =~= seq![digit_char(d as nat)]);
        }
        r
    }
}

/// The row number `n` written as it starts a receipt name: `7` gives `"007"`,
/// `1234` gives `"1234"`.
pub fn padded_index(n: usize) -> (r: String)
    ensures
        r@ == index_text(n as nat),
{
    let digits = decimal_digits(n);
    let len = digits.as_str().unicode_len();
    let mut r = String::new();
    let mut k: usize = len;
    while k < 3
        invariant
            len == decimal(n as nat).len(),
            len <= k <= 3 || len > 3 && k == len,
            r@ == Seq::new((k - len) as nat, |_i: int| '0'),
        decreases 3 - k,
    {
        r.append("0");
        proof {
            reveal_strlit("0");
            assert(r@ =~= Seq::new((k + 1 - len) as nat, |_i: int| '0'));
        }
        k = k + 1;
    }
    r.append(digits.as_str());
    proof {
        if len < 3 {
            assert(k == 3);
        } else {
            assert(r@ =~= digits@);
        }
    }
    r
}

/// Position of the last `c` in `s`, or `-1` when `s` holds none.
pub open spec fn last_index_of(s: Seq<char>, c: char) -> int
    decreases s.len(),
{
    if s.len() == 0 {
        -1
    } else if s.last() == c {
        s.len() - 1
    } else {
        last_index_of(s.drop_last(), c)
    }
}

/// The directory part of a path: everything up to and including its last `'/'`
/// (empty for a bare file name).
pub open spec fn dir_part(p: Seq<char>) -> Seq<char> {
    p.subrange(0, last_index_of(p, '/') + 1)
}

/// `p` ends in a `.` that is a whole component (`"."` or `"…/."`).
pub open spec fn ends_in_dot_part(p: Seq<char>) -> bool {
    p.len() > 0 && p.last() == '.' && (p.len() == 1 || p[p.len() - 2] == '/')
}

/// `p` without its trailing `'/'` characters and `.` components.
pub open spec fn trim_tail(p: Seq<char>) -> Seq<char>
    decreases p.len(),
{
    if p.len() > 0 && (p.last() == '/' || ends_in_dot_part(p)) {
        trim_tail(p.drop_last())
    } else {
        p
    }
}

/// The file name of a `/`-separated path, read as `std::path::Path::file_name`
/// reads a Unix path: trailing `'/'` and `.` components are ignored, and there
/// is none when what is left ends in the root, is empty, or ends in `..`.
pub open spec fn file_name(p: Seq<char>) -> Option<Seq<char>> {
    let t = trim_tail(p);
    let name = t.subrange(last_index_of(t, '/') + 1, t.len() as int);
    if name.len() == 0 || name == seq!['.', '.'] {
        None
    } else {
        Some(name)
    }
}

/// The extension of a path, read as `std::path::Path::extension` reads it:
/// what follows the last `'.'` of the file name, where that dot is not the
/// name's first character.
pub open spec fn extension(p: Seq<char>) -> Option<Seq<char>> {
    match file_name(p) {
        Some(name) => {
            let d = last_index_of(name, '.');
            if d > 0 {
                Some(name.subrange(d + 1, name.len() as int))
            } else {
                None
            }
        },
        None => None,
    }
}

/// The character code of `c` with ASCII upper case letters taken to lower case.
pub open spec fn ascii_lower_code(c: char) -> u32 {
    if 'A' <= c && c <= 'Z' {
        (c as u32 + 32) as u32
    } else {
        c as u32
    }
}

/// `a` and `b` are equal when ASCII letter case is ignored.
pub open spec fn eq_ignore_ascii_case(a: Seq<char>, b: Seq<char>) -> bool {
    a.len() == b.len() && forall|i: int|
        0 <= i < a.len() ==> #[trigger] ascii_lower_code(a[i]) == ascii_lower_code(b[i])
}

/// A path names a receipt document when its extension is `pdf` in any letter case.
pub open spec fn is_pdf_path(p: Seq<char>) -> bool {
    extension(p) matches Some(e) && eq_ignore_ascii_case(e, seq!['p', 'd', 'f'])
}

/// A ledger file's path ends in the extension `csv`, written in lower case.
pub open spec fn is_csv_path(p: Seq<char>) -> bool {
    extension(p) == Some(seq!['c', 's', 'v'])
}

/// A label made safe for a file name: every `'/'` becomes `'_'`.
pub open spec fn sanitized(s: Seq<char>) -> Seq<char> {
    s.map_values(|c: char| if c == '/' { '_' } else { c })
}

proof fn lemma_last_index_of(s: Seq<char>, c: char)
    ensures
        -1 <= last_index_of(s, c) < s.len(),
        last_index_of(s, c) >= 0 ==> s[last_index_of(s, c)] == c,
        forall|j: int| last_index_of(s, c) < j < s.len() ==> s[j] != c,
    decreases s.len(),
{
    if s.len() > 0 && s.last() != c {
        lemma_last_index_of(s.drop_last(), c);
        assert forall|j: int| last_index_of(s, c) < j < s.len() implies s[j] != c by {
            if j < s.len() - 1 {
                assert(s.drop_last()[j] == s[j]);
            }
        }
    }
}

/// Position of the last `c` in `s`.
pub fn find_last(s: &str, c: char) -> (r: Option<usize>)
    ensures
        match r {
            Some(i) => last_index_of(s@, c) == i && i < s@.len(),
            None => last_index_of(s@, c) == -1,
        },
        s@.len() <= usize::MAX,
{
    let mut i: usize = s.unicode_len();
    assert(s@.subrange(0, i as int) =~= s@);
    while i > 0
        invariant
            i <= s@.len() <= usize::MAX,
            last_index_of(s@, c) == last_index_of(s@.subrange(0, i as int), c),
        decreases i,
    {
        let ch = s.get_char(i - 1);
        assert(s@.subrange(0, i as int).drop_last() =~= s@.subrange(0, i - 1));
        if ch == c {
            return Some(i - 1);
        }
        i = i - 1;
    }
    assert(s@.subrange(0, 0) =~= Seq::<char>::empty());
    None
}

/// The directory part of `path`, with its trailing `'/'`: `"a/b/c.pdf"` gives
/// `"a/b/"`, `"c.pdf"` gives `""`.
pub fn dir_prefix(path: &str) -> (r: &str)
    ensures
        r@ == dir_part(path@),
{
    proof {
        lemma_last_index_of(path@, '/');
    }
    let end: usize = match find_last(path, '/') {
        Some(i) => i + 1,
        None => 0,
    };
    path.substring_char(0, end)
}

/// The file name of `path`: `"a/b/c.pdf"` and `"a/b/c.pdf/"` give `"c.pdf"`,
/// `"a/.."` and `"/"` give none.
pub fn file_name_part(path: &str) -> (r: Option<&str>)
    ensures
        match r {
            Some(f) => file_name(path@) == Some(f@),
            None => file_name(path@) is None,
        },
{
    let ghost p = path@;
    let n = path.unicode_len();
    let mut end: usize = n;
    assert(p.subrange(0, n as int) =~= p);
    while end > 0 && (path.get_char(end - 1) == '/' || (path.get_char(end - 1) == '.' && (end == 1
        || path.get_char(end - 2) == '/')))
        invariant
            end <= n == p.len(),
            p == path@,
            trim_tail(p) == trim_tail(p.subrange(0, end as int)),
        decreases end,
    {
        assert(p.subrange(0, end as int).drop_last() =~= p.subrange(0, end - 1));
        end = end - 1;
    }
    let t = path.substring_char(0, end);
    assert(trim_tail(t@) == t@);
    proof {
        lemma_last_index_of(t@, '/');
    }
    let start: usize = match find_last(t, '/') {
        Some(i) => i + 1,
        None => 0,
    };
    let name = t.substring_char(start, end);
    let len = end - start;
    if len == 0 || (len == 2 && name.get_char(0) == '.' && name.get_char(1) == '.') {
        assert(len == 2 ==> (name@ == seq!['.', '.'] <==> name@[0] == '.' && name@[1] == '.')) by {
            if len == 2 && name@[0] == '.' && name@[1] == '.' {
                assert(name@ =~= seq!['.', '.']);
            }
        }
        None
    } else {
        assert(name@ != seq!['.', '.']) by {
            let dots = seq!['.', '.'];
            assert(dots.len() == 2 && dots[0] == '.' && dots[1] == '.');
            if name@ == dots {
                assert(len == 2);
                assert(name@[0] == '.' && name@[1] == '.');
            }
        }
        Some(name)
    }
}

/// The extension of the last component of `path`, if it has one.
pub fn extension_of(path: &str) -> (r: Option<&str>)
    ensures
        match r {
            Some(e) => extension(path@) == Some(e@),
            None => extension(path@) is None,
        },
{
    let name = match file_name_part(path) {
        Some(name) => name,
        None => {
            return None;
        },
    };
    proof {
        lemma_last_index_of(name@, '.');
    }
    match find_last(name, '.') {
        Some(d) => {
            if d > 0 {
                Some(name.substring_char(d + 1, name.unicode_len()))
            } else {
                None
            }
        },
        None => None,
    }
}

fn lower_code(c: char) -> (r: u32)
    ensures
        r == ascii_lower_code(c),
{
    if 'A' <= c && c <= 'Z' {
        c as u32 + 32
    } else {
        c as u32
    }
}

/// Whether `a` equals `b` when ASCII letter case is ignored.
pub fn equals_ignore_ascii_case(a: &str, b: &str) -> (r: bool)
    ensures
        r == eq_ignore_ascii_case(a@, b@),
{
    let n = a.unicode_len();
    if n != b.unicode_len() {
        return false;
    }
    let mut i: usize = 0;
    while i < n
        invariant
            n == a@.len() == b@.len(),
            i <= n,
            forall|j: int| 0 <= j < i ==> ascii_lower_code(a@[j]) == ascii_lower_code(b@[j]),
        decreases n - i,
    {
        if lower_code(a.get_char(i)) != lower_code(b.get_char(i)) {
            return false;
        }
        i = i + 1;
    }
    true
}

/// Whether `path` names a receipt document (extension `pdf`, any letter case).
pub fn has_pdf_extension(path: &str) -> (r: bool)
    ensures
        r == is_pdf_path(path@),
{
    proof {
        reveal_strlit("pdf");
    }
    match extension_of(path) {
        Some(e) => {
            let r = equals_ignore_ascii_case(e, "pdf");
            assert("pdf"@ =~= seq!['p', 'd', 'f']);
            r
        },
        None => false,
    }
}

/// Whether `path` names a ledger file (extension `csv`).
pub fn has_csv_extension(path: &str) -> (r: bool)
    ensures
        r == is_csv_path(path@),
{
    proof {
        reveal_strlit("csv");
    }
    match extension_of(path) {
        Some(e) => {
            let n = e.unicode_len();
            assert("csv"@ =~= seq!['c', 's', 'v']);
            if n != 3 {
                return false;
            }
            let r = e.get_char(0) == 'c' && e.get_char(1) == 's' && e.get_char(2) == 'v';
            assert(r ==> e@ =~= seq!['c', 's', 'v']);
            r
        },
        None => false,
    }
}

/// `label` with every `'/'` replaced by `'_'`, so that it cannot split a path.
pub fn sanitize_label(label: &str) -> (r: String)
    ensures
        r@ == sanitized(label@),
{
    let n = label.unicode_len();
    let mut r = String::new();
    let mut i: usize = 0;
    while i < n
        invariant
            n == label@.len(),
            i <= n,
            r@ == sanitized(label@.subrange(0, i as int)),
        decreases n - i,
    {
        let ch = label.get_char(i);
        if ch == '/' {
            r.append("_");
            proof {
                reveal_strlit("_");
            }
            assert("_"@ =~= seq!['_']);
        } else {
            let piece = label.substring_char(i, i + 1);
            r.append(piece);
            assert(piece@ =~= seq![ch]);
        }
        assert(label@.subrange(0, i + 1) =~= label@.subrange(0, i as int).push(ch));
        assert(r@ =~= sanitized(label@.subrange(0, i + 1)));
        i = i + 1;
    }
    assert(label@.subrange(0, n as int) =~= label@);
    r
}

/// `s` holds no `'/'`.
pub open spec fn no_slash(s: Seq<char>) -> bool {
    forall|i: int| 0 <= i < s.len() ==> s[i] != '/'
}

pub proof fn lemma_no_slash_concat(a: Seq<char>, b: Seq<char>)
    requires
        no_slash(a),
        no_slash(b),
    ensures
        no_slash(a + b),
{
    assert forall|i: int| 0 <= i < (a + b).len() implies (a + b)[i] != '/' by {
        if i >= a.len() {
            assert((a + b)[i] == b[i - a.len()]);
        }
    }
}

proof fn lemma_decimal_no_slash(n: nat)
    ensures
        no_slash(decimal(n)),
    decreases n,
{
    reveal_strlit("0123456789");
    assert(forall|d: int| 0 <= d < 10 ==> "0123456789"@[d] != '/');
    if n >= 10 {
        lemma_decimal_no_slash(n / 10);
        lemma_no_slash_concat(decimal(n / 10), seq![digit_char(n % 10)]);
        assert(decimal(n) =~= decimal(n / 10) + seq![digit_char(n % 10)]);
    }
}

/// A padded row number holds no `'/'`.
pub proof fn lemma_index_text_no_slash(n: nat)
    ensures
        no_slash(index_text(n)),
{
    lemma_decimal_no_slash(n);
    let d = decimal(n);
    if d.len() < 3 {
        lemma_no_slash_concat(Seq::new((3 - d.len()) as nat, |_i: int| '0'), d);
    }
}

/// A sanitized label holds no `'/'`.
pub proof fn lemma_sanitized_no_slash(s: Seq<char>)
    ensures
        no_slash(sanitized(s)),
{
}

/// Appending text without `'/'` leaves the last `'/'` where it was.
proof fn lemma_last_slash_append(a: Seq<char>, b: Seq<char>)
    requires
        no_slash(b),
    ensures
        last_index_of(a + b, '/') == last_index_of(a, '/'),
    decreases b.len(),
{
    if b.len() > 0 {
        assert((a + b).drop_last() =~= a + b.drop_last());
        assert((a + b).last() == b.last());
        lemma_last_slash_append(a, b.drop_last());
    } else {
        assert(a + b =~= a);
    }
}

/// A file name placed in the directory of `p` lies in that same directory.
pub proof fn lemma_dir_part_of_join(p: Seq<char>, name: Seq<char>)
    requires
        no_slash(name),
    ensures
        dir_part(dir_part(p) + name) == dir_part(p),
{
    lemma_last_index_of(p, '/');
    let d = dir_part(p);
    lemma_last_slash_append(d, name);
    let k = last_index_of(p, '/');
    if k >= 0 {
        assert(d.last() == '/');
        assert(last_index_of(d, '/') == k);
    } else {
        assert(d.len() == 0);
    }
    assert((d + name).subrange(0, k + 1) =~= d);
}

} // verus!
