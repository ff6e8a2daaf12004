//! Filename utilities: splitting a name into stem and extension, and a
//! monotonically-incrementing counter for sequence numbering.

use vstd::prelude::*;

verus! {

/// Index of the last '.' in `name`, or -1 when none occurs.
pub open spec fn last_dot(name: Seq<char>) -> int
    decreases name.len(),
{
    if name.len() == 0 {
        -1
    } else if name.last() == '.' {
        name.len() - 1
    } else {
        last_dot(name.drop_last())
    }
}

/// The stem: everything before the last '.', or the whole name when no '.'
/// occurs or when the name begins with '.' (dotfiles are not split).
pub open spec fn stem_of(name: Seq<char>) -> Seq<char> {
    if last_dot(name) <= 0 {
        name
    } else {
        name.subrange(0, last_dot(name))
    }
}

/// The extension: the last '.' and everything after it, or empty when the
/// name is not split (see `stem_of`).
pub open spec fn ext_of(name: Seq<char>) -> Seq<char> {
    if last_dot(name) <= 0 {
        Seq::empty()
    } else {
        name.subrange(last_dot(name), name.len() as int)
    }
}

/// `last_dot` points at a '.' and nothing after it is a '.'.
pub proof fn lemma_last_dot_bounds(name: Seq<char>)
    ensures
        -1 <= last_dot(name) < name.len(),
        last_dot(name) >= 0 ==> name[last_dot(name)] == '.',
        forall|j: int| last_dot(name) < j < name.len() ==> name[j] != '.',
    decreases name.len(),
{
    if name.len() == 0 {
    } else if name.last() == '.' {
    } else {
        lemma_last_dot_bounds(name.drop_last());
        assert forall|j: int| last_dot(name) < j < name.len() implies name[j] != '.' by {
            if j < name.len() - 1 {
                assert(name.drop_last()[j] == name[j]);
            }
        }
    }
}

/// A '.' with no later '.' is where `last_dot` points.
pub proof fn lemma_last_dot_of_witness(name: Seq<char>, k: int)
    requires
        0 <= k < name.len(),
        name[k] == '.',
        forall|j: int| k < j < name.len() ==> name[j] != '.',
    ensures
        last_dot(name) == k,
    decreases name.len(),
{
    if k == name.len() - 1 {
    } else {
        assert(name.last() != '.');
        assert(name.drop_last()[k] == name[k]);
        assert forall|j: int| k < j < name.drop_last().len() implies name.drop_last()[j] != '.' by {
            assert(name.drop_last()[j] == name[j]);
        }
        lemma_last_dot_of_witness(name.drop_last(), k);
    }
}

/// A name without any '.' has no last dot.
pub proof fn lemma_no_dot(name: Seq<char>)
    requires
        forall|j: int| 0 <= j < name.len() ==> name[j] != '.',
    ensures
        last_dot(name) == -1,
    decreases name.len(),
{
    if name.len() > 0 {
        assert forall|j: int| 0 <= j < name.drop_last().len() implies name.drop_last()[j] != '.' by {
            assert(name.drop_last()[j] == name[j]);
        }
        lemma_no_dot(name.drop_last());
    }
}

/// Splitting loses nothing: the stem followed by the extension is the name.
pub proof fn lemma_split_concat(name: Seq<char>)
    ensures
        stem_of(name) + ext_of(name) == name,
        stem_of(name).len() + ext_of(name).len() == name.len(),
{
    lemma_last_dot_bounds(name);
    assert(stem_of(name) + ext_of(name) =~= name);
}

/// Split a filename into (stem, extension). The extension starts at the last
/// '.' and includes it; a name with no '.' or beginning with '.' is all stem.
pub fn split_filename(file_name: &str) -> (r: (String, String))
    ensures
        r.0@ == stem_of(file_name@),
        r.1@ == ext_of(file_name@),
        r.0@ + r.1@ == file_name@,
{
    let len: usize = file_name.unicode_len();
    let mut i: usize = 0;
    let mut dot: usize = 0;
    let mut found: bool = false;
    while i < len
        invariant
            i <= len,
            len == file_name@.len(),
            found ==> dot < i && file_name@[dot as int] == '.' && (forall|j: int|
                dot < j < i ==> file_name@[j] != '.'),
            !found ==> forall|j: int| 0 <= j < i ==> file_name@[j] != '.',
        decreases len - i,
    {
        if file_name.get_char(i) == '.' {
            found = true;
            dot = i;
        }
        i += 1;
    }
    proof {
        if found {
            lemma_last_dot_of_witness(file_name@, dot as int);
        } else {
            lemma_no_dot(file_name@);
        }
        lemma_split_concat(file_name@);
    }
    if !found || dot == 0 {
        let stem = file_name.to_owned();
        let ext = String::new();
        proof {
            assert(stem@ + ext@ =~= file_name@);
        }
        (stem, ext)
    } else {
        let stem = file_name.substring_char(0, dot).to_owned();
        let ext = file_name.substring_char(dot, len).to_owned();
        (stem, ext)
    }
}

/// Literal substring replacement, find -> to, leftmost match first, matched
/// text never rescanned. An empty `find` matches at every boundary, so `to`
/// is inserted before each character and once at the end.
pub open spec fn replace_seq(s: Seq<char>, find: Seq<char>, to: Seq<char>) -> Seq<char>
    decreases s.len(),
{
    if s.len() >= find.len() && s.subrange(0, find.len() as int) == find {
        if s.len() == 0 {
            to
        } else if find.len() == 0 {
            to + seq![s[0]] + replace_seq(s.skip(1), find, to)
        } else {
            to + replace_seq(s.skip(find.len() as int), find, to)
        }
    } else if s.len() > 0 {
        seq![s[0]] + replace_seq(s.skip(1), find, to)
    } else {
        s
    }
}

/// Does `find` occur in `s` starting at character index `i`?
fn matches_at(s: &str, i: usize, find: &str) -> (b: bool)
    requires
        i + find@.len() <= s@.len(),
    ensures
        b == (s@.subrange(i as int, i + find@.len()) == find@),
{
    let s_len: usize = s.unicode_len();
    let find_len: usize = find.unicode_len();
    let mut j: usize = 0;
    while j < find_len
        invariant
            j <= find_len,
            find_len == find@.len(),
            s_len == s@.len(),
            i + find@.len() <= s@.len(),
            forall|k: int| 0 <= k < j ==> s@[i + k] == find@[k],
        decreases find_len - j,
    {
        if s.get_char(i + j) != find.get_char(j) {
            proof {
                assert(s@.subrange(i as int, i + find@.len())[j as int] == s@[i + j]);
            }
            return false;
        }
        j += 1;
    }
    proof {
        assert(s@.subrange(i as int, i + find@.len()) =~= find@);
    }
    true
}

/// Replace every occurrence of `find` in `s` by `to` (literal, not regex).
pub fn replace_all(s: &str, find: &str, to: &str) -> (r: String)
    ensures
        r@ == replace_seq(s@, find@, to@),
{
    let s_len: usize = s.unicode_len();
    let find_len: usize = find.unicode_len();
    let mut result = String::new();
    proof {
        assert(s@.skip(0) =~= s@);
        assert(result@ + replace_seq(s@, find@, to@) =~= replace_seq(s@, find@, to@));
    }
    if find_len == 0 {
        let mut i: usize = 0;
        while i < s_len
            invariant
                i <= s_len,
                s_len == s@.len(),
                find@.len() == 0,
                result@ + replace_seq(s@.skip(i as int), find@, to@) == replace_seq(
                    s@,
                    find@,
                    to@,
                ),
            decreases s_len - i,
        {
            result.append(to);
            let c = s.substring_char(i, i + 1);
            result.append(c);
            proof {
                let rest = s@.skip(i as int);
                assert(rest.subrange(0, 0) =~= find@);
                assert(c@ =~= seq![rest[0]]);
                assert(rest.skip(1) =~= s@.skip(i + 1));
                assert(replace_seq(rest, find@, to@) == to@ + seq![rest[0]] + replace_seq(
                    s@.skip(i + 1),
                    find@,
                    to@,
                ));
            }
            i += 1;
        }
        result.append(to);
        proof {
            let rest = s@.skip(s_len as int);
            assert(rest.subrange(0, 0) =~= find@);
            assert(replace_seq(rest, find@, to@) == to@);
        }
        result
    } else {
        let mut i: usize = 0;
        while i < s_len
            invariant
                i <= s_len,
                s_len == s@.len(),
                find_len == find@.len(),
                find_len > 0,
                result@ + replace_seq(s@.skip(i as int), find@, to@) == replace_seq(
                    s@,
                    find@,
                    to@,
                ),
            decreases s_len - i,
        {
            if find_len <= s_len - i && matches_at(s, i, find) {
                result.append(to);
                proof {
                    let rest = s@.skip(i as int);
                    assert(rest.subrange(0, find@.len() as int) =~= s@.subrange(
                        i as int,
                        i + find@.len(),
                    ));
                    assert(rest.skip(find@.len() as int) =~= s@.skip(i + find@.len()));
                    assert(replace_seq(rest, find@, to@) == to@ + replace_seq(
                        s@.skip(i + find@.len()),
                        find@,
                        to@,
                    ));
                }
                i += find_len;
            } else {
                let c = s.substring_char(i, i + 1);
                result.append(c);
                proof {
                    let rest = s@.skip(i as int);
                    if find_len <= s_len - i {
                        assert(rest.subrange(0, find@.len() as int) =~= s@.subrange(
                            i as int,
                            i + find@.len(),
                        ));
                        assert(rest.subrange(0, find@.len() as int) != find@);
                    }
                    assert(c@ =~= seq![rest[0]]);
                    assert(rest.skip(1) =~= s@.skip(i + 1));
                    assert(replace_seq(rest, find@, to@) == seq![rest[0]] + replace_seq(
                        s@.skip(i + 1),
                        find@,
                        to@,
                    ));
                }
                i += 1;
            }
        }
        proof {
            let rest = s@.skip(s_len as int);
            assert(rest =~= Seq::<char>::empty());
            assert(replace_seq(rest, find@, to@) =~= Seq::<char>::empty());
            assert(result@ + replace_seq(rest, find@, to@) =~= result@);
        }
        result
    }
}

/// A counter that hands out consecutive integers, one per call of `next`.
pub struct Counter {
    next_value: i64,
}

impl Counter {
    /// The value the next call of `next` returns.
    pub closed spec fn value(self) -> int {
        self.next_value as int
    }

    /// The stored value stays one step within `i32` range, so that `next`
    /// can both return it and move past `i32::MAX` once.
    pub closed spec fn wf(self) -> bool {
        i32::MIN <= self.next_value <= i32::MAX as int + 1
    }

    /// Return the current value and advance by one.
    pub fn next(&mut self) -> (r: i32)
        requires
            old(self).wf(),
            old(self).value() <= i32::MAX,
        ensures
            final(self).wf(),
            r as int == old(self).value(),
            final(self).value() == old(self).value() + 1,
    {
        let r = self.next_value as i32;
        self.next_value = self.next_value + 1;
        r
    }
}

/// A fresh counter: its calls of `next` return start, start+1, start+2, ...
pub fn new_counter(start: i32) -> (c: Counter)
    ensures
        c.wf(),
        c.value() == start as int,
{
    Counter { next_value: start as i64 }
}

} // verus!
