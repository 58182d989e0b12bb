//! Directory navigation: a current path and a sorted list of sibling
//! image paths, with next/previous stepping.

use vstd::prelude::*;

verus! {

use vstd::seq_lib::lemma_multiset_commutative;

/// Whether `t` occurs at index `i` of `l` and nowhere earlier: the index
/// the navigator steps from.
pub open spec fn is_first_match(l: Seq<String>, t: Seq<char>, i: int) -> bool {
    &&& 0 <= i < l.len()
    &&& l[i]@ == t
    &&& forall|j: int| 0 <= j < i ==> l[j]@ != t
}

pub struct Navigator {
    pub current_path: Option<String>,
    pub image_list: Vec<String>,
}

impl Navigator {
    /// A fresh navigator: no current path, no file list.
    pub fn new() -> (n: Navigator)
        ensures
            n.current_path is None,
            n.image_list@.len() == 0,
    {
        Navigator { current_path: None, image_list: Vec::new() }
    }

    /// The index of the current path in the list, scanning from the
    /// front; `None` when there is no current path or it is not listed.
    fn position_of_current(&self) -> (r: Option<usize>)
        ensures
            match r {
                Some(i) => self.current_path is Some && is_first_match(
                    self.image_list@,
                    self.current_path->Some_0@,
                    i as int,
                ),
                None => self.current_path is Some ==> forall|j: int|
                    0 <= j < self.image_list@.len() ==> self.image_list@[j]@
                        != self.current_path->Some_0@,
            },
    {
        if self.current_path.is_none() {
            return None;
        }
        let cur: &String = self.current_path.as_ref().unwrap();
        let n = self.image_list.len();
        let mut i: usize = 0;
        while i < n
            invariant
                n == self.image_list@.len(),
                i <= n,
                self.current_path is Some,
                *cur == self.current_path->Some_0,
                forall|j: int| 0 <= j < i ==> self.image_list@[j]@ != cur@,
            decreases n - i,
        {
            if self.image_list[i] == *cur {
                proof {
                    assert(is_first_match(self.image_list@, cur@, i as int));
                }
                return Some(i);
            }
            i = i + 1;
        }
        None
    }

    /// The path after the current one in the list, when the current path
    /// is listed and is not last.
    pub fn get_next_image(&self) -> (r: Option<String>)
        ensures
            match r {
                Some(p) => self.current_path is Some && exists|i: int|
                    is_first_match(self.image_list@, self.current_path->Some_0@, i)
                        && i + 1 < self.image_list@.len() && p@ == self.image_list@[i + 1]@,
                None => self.current_path is Some ==> forall|i: int|
                    is_first_match(self.image_list@, self.current_path->Some_0@, i) ==> i + 1
                        >= self.image_list@.len(),
            },
    {
        match self.position_of_current() {
            Some(pos) => {
                proof {
                    assert(is_first_match(
                        self.image_list@,
                        self.current_path->Some_0@,
                        pos as int,
                    ));
                }
                let n = self.image_list.len();
                if pos + 1 < n {
                    let p = self.image_list[pos + 1].clone();
                    proof {
                        assert(p@ == self.image_list@[pos + 1]@);
                    }
                    Some(p)
                } else {
                    proof {
                        assert forall|i: int|
                            is_first_match(
                                self.image_list@,
                                self.current_path->Some_0@,
                                i,
                            ) implies i + 1 >= self.image_list@.len() by {
                            assert(i == pos);
                        }
                    }
                    None
                }
            },
            None => None,
        }
    }

    /// The path before the current one in the list, when the current path
    /// is listed and is not first.
    pub fn get_prev_image(&self) -> (r: Option<String>)
        ensures
            match r {
                Some(p) => self.current_path is Some && exists|i: int|
                    is_first_match(self.image_list@, self.current_path->Some_0@, i) && i >= 1
                        && p@ == self.image_list@[i - 1]@,
                None => self.current_path is Some ==> forall|i: int|
                    is_first_match(self.image_list@, self.current_path->Some_0@, i) ==> i == 0,
            },
    {
        match self.position_of_current() {
            Some(pos) => {
                proof {
                    assert(is_first_match(
                        self.image_list@,
                        self.current_path->Some_0@,
                        pos as int,
                    ));
                }
                if pos > 0 {
                    let p = self.image_list[pos - 1].clone();
                    proof {
                        assert(p@ == self.image_list@[pos - 1]@);
                    }
                    Some(p)
                } else {
                    proof {
                        assert forall|i: int|
                            is_first_match(
                                self.image_list@,
                                self.current_path->Some_0@,
                                i,
                            ) implies i == 0 by {
                            assert(i == pos);
                        }
                    }
                    None
                }
            },
            None => None,
        }
    }
}

/// Code-point lexicographic order on character sequences: the order in
/// which the file list is kept.
pub open spec fn lex_le(a: Seq<char>, b: Seq<char>) -> bool
    decreases a.len(),
{
    if a.len() == 0 {
        true
    } else if b.len() == 0 {
        false
    } else if a[0] != b[0] {
        (a[0] as int) < (b[0] as int)
    } else {
        lex_le(a.drop_first(), b.drop_first())
    }
}

/// A path list in nondecreasing lexicographic order.
pub open spec fn paths_sorted(s: Seq<String>) -> bool {
    forall|p: int, q: int| 0 <= p < q < s.len() ==> lex_le(s[p]@, s[q]@)
}

/// Lexicographic order is total.
proof fn lemma_lex_total(a: Seq<char>, b: Seq<char>)
    ensures
        lex_le(a, b) || lex_le(b, a),
    decreases a.len(),
{
    if a.len() > 0 && b.len() > 0 && a[0] == b[0] {
        lemma_lex_total(a.drop_first(), b.drop_first());
    }
}

/// Lexicographic order is transitive.
proof fn lemma_lex_trans(a: Seq<char>, b: Seq<char>, c: Seq<char>)
    requires
        lex_le(a, b),
        lex_le(b, c),
    ensures
        lex_le(a, c),
    decreases a.len(),
{
    if a.len() > 0 && b.len() > 0 && c.len() > 0 && a[0] == b[0] && b[0] == c[0] {
        lemma_lex_trans(a.drop_first(), b.drop_first(), c.drop_first());
    }
}

/// Compares two paths in code-point lexicographic order.
fn lex_le_exec(a: &String, b: &String) -> (r: bool)
    ensures
        r == lex_le(a@, b@),
{
    let sa = a.as_str();
    let sb = b.as_str();
    let an = sa.unicode_len();
    let bn = sb.unicode_len();
    let mut i: usize = 0;
    proof {
        assert(a@.skip(0) =~= a@);
        assert(b@.skip(0) =~= b@);
    }
    while i < an && i < bn
        invariant
            i <= an,
            i <= bn,
            an == a@.len(),
            bn == b@.len(),
            sa@ == a@,
            sb@ == b@,
            lex_le(a@, b@) == lex_le(a@.skip(i as int), b@.skip(i as int)),
        decreases an - i,
    {
        let ca = sa.get_char(i);
        let cb = sb.get_char(i);
        proof {
            assert(a@.skip(i as int)[0] == a@[i as int]);
            assert(b@.skip(i as int)[0] == b@[i as int]);
            assert(a@.skip(i as int).drop_first() =~= a@.skip(i + 1));
            assert(b@.skip(i as int).drop_first() =~= b@.skip(i + 1));
        }
        if ca != cb {
            return (ca as u32) < (cb as u32);
        }
        i = i + 1;
    }
    i >= an
}

/// Inserting an element anywhere adds exactly it to the sequence's
/// multiset.
proof fn lemma_insert_multiset(s: Seq<String>, pos: int, x: String)
    requires
        0 <= pos <= s.len(),
    ensures
        s.insert(pos, x).to_multiset() == s.to_multiset().insert(x),
{
    broadcast use vstd::multiset::group_multiset_axioms;

    let left = s.subrange(0, pos);
    let right = s.subrange(pos, s.len() as int);
    assert(s =~= left + right);
    lemma_multiset_commutative(left, right);
    lemma_multiset_commutative(left.push(x), right);
    left.to_multiset_ensures();
    assert(s.insert(pos, x).to_multiset() =~= s.to_multiset().insert(x));
}

/// Sorts a path list into code-point lexicographic order (the order the
/// standard library's string sort uses), keeping every element.
pub fn sort_paths(list: Vec<String>) -> (out: Vec<String>)
    ensures
        paths_sorted(out@),
        out@.to_multiset() == list@.to_multiset(),
{
    let n = list.len();
    let mut out: Vec<String> = Vec::new();
    let mut i: usize = 0;
    proof {
        assert(out@ =~= list@.take(0));
    }
    while i < n
        invariant
            i <= n,
            n == list@.len(),
            paths_sorted(out@),
            out@.to_multiset() == list@.take(i as int).to_multiset(),
        decreases n - i,
    {
        let x = list[i].clone();
        let m = out.len();
        let mut pos: usize = 0;
        loop
            invariant
                pos <= m,
                m == out@.len(),
                x@ == list@[i as int]@,
                paths_sorted(out@),
                forall|k: int| 0 <= k < pos ==> lex_le(out@[k]@, x@),
            ensures
                pos <= m,
                m == out@.len(),
                forall|k: int| 0 <= k < pos ==> lex_le(out@[k]@, x@),
                pos < m ==> !lex_le(out@[pos as int]@, x@),
            decreases m - pos,
        {
            if pos == m {
                break;
            }
            if !lex_le_exec(&out[pos], &x) {
                break;
            }
            pos = pos + 1;
        }
        let ghost old_out = out@;
        proof {
            lemma_insert_multiset(old_out, pos as int, x);
            list@.take(i as int).to_multiset_ensures();
            assert(list@.take(i + 1) =~= list@.take(i as int).push(list@[i as int]));
            // everything at or after the insert position is at least x
            assert forall|k: int| pos <= k < old_out.len() implies lex_le(x@, old_out[k]@) by {
                lemma_lex_total(old_out[pos as int]@, x@);
                if k > pos {
                    lemma_lex_trans(x@, old_out[pos as int]@, old_out[k]@);
                }
            }
        }
        out.insert(pos, x);
        proof {
            assert(out@ =~= old_out.subrange(0, pos as int).push(x) + old_out.subrange(
                pos as int,
                old_out.len() as int,
            ));
            assert forall|p: int, q: int| 0 <= p < q < out@.len() implies lex_le(
                out@[p]@,
                out@[q]@,
            ) by {
                let pp: int = if p < pos { p } else { p - 1 };
                let qq: int = if q < pos { q } else { q - 1 };
                if p == pos {
                    assert(out@[p] == x);
                    assert(out@[q] == old_out[qq]);
                } else if q == pos {
                    assert(out@[q] == x);
                    assert(out@[p] == old_out[pp]);
                } else {
                    assert(out@[p] == old_out[pp]);
                    assert(out@[q] == old_out[qq]);
                    if pp < qq {
                    } else {
                        assert(pp == qq);
                        assert(p < pos && q > pos);
                        assert(lex_le(old_out[pp]@, x@) && lex_le(x@, old_out[qq]@));
                        lemma_lex_trans(old_out[pp]@, x@, old_out[qq]@);
                    }
                }
            }
        }
        i = i + 1;
    }
    proof {
        assert(list@.take(n as int) =~= list@);
    }
    out
}

} // verus!
