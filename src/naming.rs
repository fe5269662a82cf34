use vstd::prelude::*;

use crate::config::RotationError;

verus! {

/// An ASCII decimal digit.
pub open spec fn is_digit(c: char) -> bool {
    '0' <= c && c <= '9'
}

/// The value of an ASCII decimal digit.
pub open spec fn digit_value(c: char) -> nat {
    (c as int - '0' as int) as nat
}

/// The character of a decimal digit.
pub open spec fn digit_char(d: nat) -> char {
    if d == 0 {
        '0'
    } else if d == 1 {
        '1'
    } else if d == 2 {
        '2'
    } else if d == 3 {
        '3'
    } else if d == 4 {
        '4'
    } else if d == 5 {
        '5'
    } else if d == 6 {
        '6'
    } else if d == 7 {
        '7'
    } else if d == 8 {
        '8'
    } else {
        '9'
    }
}

/// The decimal notation of `n`, without leading zeros.
pub open spec fn decimal(n: nat) -> Seq<char>
    decreases n,
{
    if n < 10 {
        seq![digit_char(n)]
    } else {
        decimal(n / 10).push(digit_char(n % 10))
    }
}

/// The value of a string of decimal digits, most significant first.
pub open spec fn digits_value(s: Seq<char>) -> nat
    decreases s.len(),
{
    if s.len() == 0 {
        0
    } else {
        digits_value(s.drop_last()) * 10 + digit_value(s.last())
    }
}

pub open spec fn all_digits(s: Seq<char>) -> bool {
    forall|j: int| 0 <= j < s.len() ==> is_digit(#[trigger] s[j])
}

/// The name under which the active file of the stream `root` is kept.
pub open spec fn active_name(root: Seq<char>) -> Seq<char> {
    root + ".ACTIVE"@
}

/// The name of the rotated file with index `i` of the stream `root`.
pub open spec fn rotated_name(root: Seq<char>, i: nat) -> Seq<char> {
    root + seq!['.'] + decimal(i)
}

/// `name` is `root`, a dot and one or more decimal digits.
pub open spec fn rotated_shape(root: Seq<char>, name: Seq<char>) -> bool {
    &&& name.len() > root.len() + 1
    &&& name.subrange(0, root.len() as int) == root
    &&& name[root.len() as int] == '.'
    &&& all_digits(name.subrange(root.len() as int + 1, name.len() as int))
}

/// `name` is `root` followed by a dot and possibly more.
pub open spec fn dot_prefixed(root: Seq<char>, name: Seq<char>) -> bool {
    &&& name.len() > root.len()
    &&& name.subrange(0, root.len() as int) == root
    &&& name[root.len() as int] == '.'
}

/// A name that has the shape of a rotated file name but whose index cannot
/// be read: `root` and a dot with nothing after it, or an index too large to
/// hold.
pub open spec fn corrupt_name(root: Seq<char>, name: Seq<char>) -> bool {
    name == root + seq!['.'] || (rotated_shape(root, name) && name_index(root, name) > u32::MAX)
}

/// The digits that follow `root` and the dot in a rotated file name.
pub open spec fn index_digits(root: Seq<char>, name: Seq<char>) -> Seq<char> {
    name.subrange(root.len() as int + 1, name.len() as int)
}

/// The index that a rotated file name carries.
pub open spec fn name_index(root: Seq<char>, name: Seq<char>) -> nat {
    digits_value(index_digits(root, name))
}

pub proof fn lemma_digit_char(d: nat)
    requires
        d < 10,
    ensures
        is_digit(digit_char(d)),
        digit_value(digit_char(d)) == d,
{
}

pub proof fn lemma_decimal(n: nat)
    ensures
        all_digits(decimal(n)),
        digits_value(decimal(n)) == n,
        decimal(n).len() >= 1,
    decreases n,
{
    if n < 10 {
        lemma_digit_char(n);
        assert(decimal(n).drop_last() =~= Seq::<char>::empty());
        assert(digits_value(Seq::<char>::empty()) == 0);
        assert(digits_value(decimal(n)) == digit_value(digit_char(n)));
    } else {
        lemma_decimal(n / 10);
        lemma_digit_char(n % 10);
        assert(decimal(n).drop_last() =~= decimal(n / 10));
        assert(decimal(n).last() == digit_char(n % 10));
        assert((n / 10) * 10 + n % 10 == n) by (nonlinear_arith);
        assert(digits_value(decimal(n)) == digits_value(decimal(n / 10)) * 10 + digit_value(
            digit_char(n % 10),
        ));
    }
}

/// Different indices give different decimal notations.
pub proof fn lemma_decimal_injective(a: nat, b: nat)
    requires
        decimal(a) == decimal(b),
    ensures
        a == b,
{
    lemma_decimal(a);
    lemma_decimal(b);
}

/// A rotated file name has the rotated shape and carries its index.
pub proof fn lemma_rotated_name(root: Seq<char>, i: nat)
    ensures
        rotated_shape(root, rotated_name(root, i)),
        index_digits(root, rotated_name(root, i)) == decimal(i),
        name_index(root, rotated_name(root, i)) == i,
{
    lemma_decimal(i);
    let name = rotated_name(root, i);
    assert(name.subrange(0, root.len() as int) =~= root);
    assert(name.subrange(root.len() as int + 1, name.len() as int) =~= decimal(i));
}

/// A prefix of a string of digits has no greater value.
pub proof fn lemma_prefix_value(s: Seq<char>, k: int)
    requires
        0 <= k <= s.len(),
    ensures
        digits_value(s.subrange(0, k)) <= digits_value(s),
    decreases s.len(),
{
    if k < s.len() {
        assert(s.drop_last() =~= s.subrange(0, s.len() - 1));
        lemma_prefix_value(s.drop_last(), k);
        assert(s.drop_last().subrange(0, k) =~= s.subrange(0, k));
    } else {
        assert(s.subrange(0, k) =~= s);
    }
}

fn digit_str(d: u32) -> (r: &'static str)
    requires
        d < 10,
    ensures
        r@ == seq![digit_char(d as nat)],
{
    if d == 0 {
        proof { reveal_strlit("0"); }
        "0"
    } else if d == 1 {
        proof { reveal_strlit("1"); }
        "1"
    } else if d == 2 {
        proof { reveal_strlit("2"); }
        "2"
    } else if d == 3 {
        proof { reveal_strlit("3"); }
        "3"
    } else if d == 4 {
        proof { reveal_strlit("4"); }
        "4"
    } else if d == 5 {
        proof { reveal_strlit("5"); }
        "5"
    } else if d == 6 {
        proof { reveal_strlit("6"); }
        "6"
    } else if d == 7 {
        proof { reveal_strlit("7"); }
        "7"
    } else if d == 8 {
        proof { reveal_strlit("8"); }
        "8"
    } else {
        proof { reveal_strlit("9"); }
        "9"
    }
}

/// The decimal notation of `n`.
pub fn decimal_string(n: u32) -> (r: String)
    ensures
        r@ == decimal(n as nat),
    decreases n,
{
    if n < 10 {
        String::from_str(digit_str(n))
    } else {
        let mut s = decimal_string(n / 10);
        s.append(digit_str(n % 10));
        s
    }
}

/// The name of the active file of the stream `root_filename`.
pub fn active_filename(root_filename: &str) -> (r: String)
    ensures
        r@ == active_name(root_filename@),
{
    String::from_str(root_filename).concat(".ACTIVE")
}

/// The name of the rotated file with index `i` of the stream `root`.
pub fn rotated_filename(root: &str, i: u32) -> (r: String)
    ensures
        r@ == rotated_name(root@, i as nat),
{
    proof { reveal_strlit("."); }
    let mut s = String::from_str(root);
    s.append(".");
    let digits = decimal_string(i);
    s.append(digits.as_str());
    proof {
        assert(s@ =~= rotated_name(root@, i as nat));
    }
    s
}

/// Whether `name` is `root` followed by a dot and possibly more.
pub fn has_dot_prefix(root: &str, name: &str) -> (r: bool)
    ensures
        r == dot_prefixed(root@, name@),
{
    let rlen = root.unicode_len();
    let nlen = name.unicode_len();
    if nlen <= rlen {
        return false;
    }
    let mut i: usize = 0;
    while i < rlen
        invariant
            rlen == root@.len(),
            nlen == name@.len(),
            rlen < nlen,
            0 <= i <= rlen,
            forall|j: int| 0 <= j < i ==> name@[j] == root@[j],
        decreases rlen - i,
    {
        if name.get_char(i) != root.get_char(i) {
            proof {
                assert(name@.subrange(0, rlen as int)[i as int] != root@[i as int]);
            }
            return false;
        }
        i = i + 1;
    }
    assert(name@.subrange(0, rlen as int) =~= root@);
    name.get_char(rlen) == '.'
}

/// Whether `name` is `root`, a dot and one or more decimal digits.
pub fn is_rotated_name(root: &str, name: &str) -> (r: bool)
    ensures
        r == rotated_shape(root@, name@),
{
    if !has_dot_prefix(root, name) {
        return false;
    }
    let rlen = root.unicode_len();
    let nlen = name.unicode_len();
    if nlen == rlen + 1 {
        return false;
    }
    let mut k: usize = rlen + 1;
    while k < nlen
        invariant
            rlen == root@.len(),
            nlen == name@.len(),
            rlen + 1 <= k <= nlen,
            forall|j: int| rlen + 1 <= j < k ==> is_digit(#[trigger] name@[j]),
        decreases nlen - k,
    {
        let c = name.get_char(k);
        if !('0' <= c && c <= '9') {
            proof {
                let d = name@.subrange(rlen + 1, nlen as int);
                assert(!is_digit(d[k - rlen - 1]));
            }
            return false;
        }
        k = k + 1;
    }
    proof {
        let d = name@.subrange(rlen + 1, nlen as int);
        assert forall|j: int| 0 <= j < d.len() implies is_digit(#[trigger] d[j]) by {
            assert(d[j] == name@[rlen + 1 + j]);
        }
    }
    true
}

/// The index that a name made of `root`, a dot and a suffix carries: the
/// value of the suffix where it is one or more decimal digits whose value
/// fits a `u32`, and `None` otherwise.
pub fn rotated_file_index(root: &str, name: &str) -> (r: Option<u32>)
    requires
        dot_prefixed(root@, name@),
    ensures
        r is Some <==> rotated_shape(root@, name@) && name_index(root@, name@) <= u32::MAX,
        r is Some ==> r->Some_0 as nat == name_index(root@, name@),
{
    let ghost digits = index_digits(root@, name@);
    let nlen = name.unicode_len();
    let start = root.unicode_len() + 1;
    if nlen == start {
        return None;
    }
    let mut acc: u64 = 0;
    let mut k: usize = start;
    while k < nlen
        invariant
            start == root@.len() + 1,
            nlen == name@.len(),
            start <= k <= nlen,
            digits == name@.subrange(start as int, nlen as int),
            all_digits(digits.subrange(0, k - start)),
            acc as nat == digits_value(digits.subrange(0, k - start)),
            acc <= u32::MAX,
        decreases nlen - k,
    {
        let c = name.get_char(k);
        assert(c == digits[k - start]);
        if !('0' <= c && c <= '9') {
            assert(!all_digits(digits));
            return None;
        }
        let d = (c as u32 - '0' as u32) as u64;
        let next = acc * 10 + d;
        proof {
            let p = digits.subrange(0, k + 1 - start);
            assert(p.drop_last() =~= digits.subrange(0, k - start));
            assert(p.last() == c);
            assert(next as nat == digits_value(p));
            assert forall|j: int| 0 <= j < p.len() implies is_digit(#[trigger] p[j]) by {
                if j < p.len() - 1 {
                    assert(p[j] == digits.subrange(0, k - start)[j]);
                }
            }
        }
        if next > u32::MAX as u64 {
            proof {
                lemma_prefix_value(digits, k + 1 - start);
            }
            return None;
        }
        acc = next;
        k = k + 1;
    }
    proof {
        assert(digits.subrange(0, nlen - start) =~= digits);
    }
    Some(acc as u32)
}

/// `p` ends in a separator, or in a `.` segment that follows a separator.
pub open spec fn ends_removable(p: Seq<char>) -> bool {
    p.len() > 0 && (p.last() == '/' || (p.len() >= 2 && p.last() == '.' && p[p.len() - 2]
        == '/'))
}

/// `p` without its trailing separators and `.` segments; a leading `.` of a
/// relative path stays.
pub open spec fn trim_seps(p: Seq<char>) -> Seq<char>
    decreases p.len(),
{
    if ends_removable(p) {
        trim_seps(p.drop_last())
    } else {
        p
    }
}

/// The position of the last separator in `p`, or -1.
pub open spec fn last_sep(p: Seq<char>) -> int
    decreases p.len(),
{
    if p.len() == 0 {
        -1
    } else if p.last() == '/' {
        p.len() - 1
    } else {
        last_sep(p.drop_last())
    }
}

/// The last component of a path: what follows its last separator, once
/// trailing separators and `.` segments are set aside.
pub open spec fn path_file_name(p: Seq<char>) -> Seq<char> {
    let t = trim_seps(p);
    t.subrange(last_sep(t) + 1, t.len() as int)
}

/// A path names a file where its last component is neither empty, `.` nor `..`.
pub open spec fn path_has_file_name(p: Seq<char>) -> bool {
    let f = path_file_name(p);
    f.len() != 0 && f != seq!['.'] && f != seq!['.', '.']
}

/// The directory that holds the last component of a path: `.` for a bare
/// name, `/` for a name at the root.
pub open spec fn path_parent(p: Seq<char>) -> Seq<char> {
    let t = trim_seps(p);
    if last_sep(t) < 0 {
        seq!['.']
    } else {
        let q = trim_seps(t.subrange(0, last_sep(t)));
        if q.len() == 0 {
            seq!['/']
        } else {
            q
        }
    }
}

proof fn lemma_trim_seps(p: Seq<char>)
    ensures
        trim_seps(p).len() <= p.len(),
        trim_seps(p) == p.subrange(0, trim_seps(p).len() as int),
        !ends_removable(trim_seps(p)),
    decreases p.len(),
{
    if ends_removable(p) {
        lemma_trim_seps(p.drop_last());
        assert(p.drop_last().subrange(0, trim_seps(p).len() as int) =~= p.subrange(
            0,
            trim_seps(p).len() as int,
        ));
    } else {
        assert(p.subrange(0, p.len() as int) =~= p);
    }
}

/// Whether `p.subrange(0, i)` ends in a separator or a `.` segment.
fn ends_removable_at(p: &str, i: usize) -> (r: bool)
    requires
        i <= p@.len(),
    ensures
        r == ends_removable(p@.subrange(0, i as int)),
{
    if i == 0 {
        return false;
    }
    let last = p.get_char(i - 1);
    last == '/' || (i >= 2 && last == '.' && p.get_char(i - 2) == '/')
}

/// The length of `p.subrange(0, end)` without its trailing separators and
/// `.` segments.
fn trimmed_len(p: &str, end: usize) -> (r: usize)
    requires
        end <= p@.len(),
    ensures
        r as nat == trim_seps(p@.subrange(0, end as int)).len(),
{
    let mut i = end;
    while ends_removable_at(p, i)
        invariant
            end <= p@.len(),
            i <= end,
            trim_seps(p@.subrange(0, end as int)) == trim_seps(p@.subrange(0, i as int)),
        decreases i,
    {
        proof {
            assert(p@.subrange(0, i as int).drop_last() =~= p@.subrange(0, i - 1));
        }
        i = i - 1;
    }
    i
}

/// The position of the last separator before `end`, or `end` if there is none.
fn last_sep_before(p: &str, end: usize) -> (r: usize)
    requires
        end <= p@.len(),
    ensures
        last_sep(p@.subrange(0, end as int)) == if r == end {
            -1
        } else {
            r as int
        },
        r <= end,
{
    let mut i = end;
    while i > 0 && p.get_char(i - 1) != '/'
        invariant
            end <= p@.len(),
            i <= end,
            last_sep(p@.subrange(0, end as int)) == last_sep(p@.subrange(0, i as int)),
        decreases i,
    {
        proof {
            assert(p@.subrange(0, i as int).drop_last() =~= p@.subrange(0, i - 1));
        }
        i = i - 1;
    }
    if i == 0 {
        end
    } else {
        i - 1
    }
}

/// Splits a path into the name of the file it names and the directory that
/// holds it.
pub fn filename_to_details(path_str: &str) -> (r: Result<(String, String), RotationError>)
    ensures
        r is Ok <==> path_has_file_name(path_str@),
        r is Ok ==> r->Ok_0.0@ == path_file_name(path_str@) && r->Ok_0.1@ == path_parent(
            path_str@,
        ),
        r is Err ==> r == Err::<(String, String), RotationError>(RotationError::PathInvalid),
{
    let plen = path_str.unicode_len();
    let tlen = trimmed_len(path_str, plen);
    proof {
        assert(path_str@.subrange(0, plen as int) =~= path_str@);
        lemma_trim_seps(path_str@);
    }
    let ghost t = trim_seps(path_str@);
    assert(t =~= path_str@.subrange(0, tlen as int));
    let sep = last_sep_before(path_str, tlen);
    let start = if sep == tlen {
        0
    } else {
        sep + 1
    };
    let name = path_str.substring_char(start, tlen);
    assert(name@ =~= path_file_name(path_str@));
    let nlen = name.unicode_len();
    if nlen == 0 {
        return Err(RotationError::PathInvalid);
    }
    if nlen == 1 && name.get_char(0) == '.' {
        assert(name@ =~= seq!['.']);
        return Err(RotationError::PathInvalid);
    }
    if nlen == 2 && name.get_char(0) == '.' && name.get_char(1) == '.' {
        assert(name@ =~= seq!['.', '.']);
        return Err(RotationError::PathInvalid);
    }
    let filename = String::from_str(name);
    if sep == tlen {
        proof { reveal_strlit("."); }
        return Ok((filename, String::from_str(".")));
    }
    let qlen = trimmed_len(path_str, sep);
    proof {
        assert(t.subrange(0, sep as int) =~= path_str@.subrange(0, sep as int));
    }
    if qlen == 0 {
        proof { reveal_strlit("/"); }
        return Ok((filename, String::from_str("/")));
    }
    proof {
        lemma_trim_seps(path_str@.subrange(0, sep as int));
        assert(trim_seps(path_str@.subrange(0, sep as int)) =~= path_str@.subrange(
            0,
            qlen as int,
        ));
    }
    let parent = String::from_str(path_str.substring_char(0, qlen));
    Ok((filename, parent))
}

} // verus!
