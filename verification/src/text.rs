//! Small text helpers shared by the identifier and filter code.

use vstd::prelude::*;

verus! {

/// Relies on `String::push`: appends exactly the given character.
#[verifier::external_body]
pub(crate) fn push_char(s: &mut String, c: char)
    ensures
        final(s)@ == old(s)@.push(c),
{
    s.push(c);
}

/// Copies a vector of strings, keeping every character.
pub(crate) fn clone_string_vec(v: &Vec<String>) -> (r: Vec<String>)
    ensures
        r.deep_view() == v.deep_view(),
{
    let mut out: Vec<String> = Vec::new();
    let mut i: usize = 0;
    while i < v.len()
        invariant
            0 <= i <= v.len(),
            out.len() == i,
            forall|j: int| 0 <= j < i ==> out@[j] == v@[j],
        decreases v.len() - i,
    {
        out.push(v[i].clone());
        i = i + 1;
    }
    proof {
        assert(out.deep_view() =~= v.deep_view());
    }
    out
}

/// Whether `regex::Regex::new` accepts a pattern: a function of the
/// pattern alone.
pub uninterp spec fn re_compiles(pattern: Seq<char>) -> bool;

/// Whether a text matches a pattern somewhere: a function of the two
/// strings alone.
pub uninterp spec fn re_match(pattern: Seq<char>, text: Seq<char>) -> bool;

/// Relies on `regex::Regex::new` and `regex::Regex::is_match`: whether
/// the pattern compiles, and whether the text matches it anywhere, are
/// functions of the two strings alone.
#[verifier::external_body]
pub(crate) fn regex_match(pattern: &str, text: &str) -> (r: Option<bool>)
    ensures
        r is Some <==> re_compiles(pattern@),
        r matches Some(b) ==> b == re_match(pattern@, text@),
{
    match regex::Regex::new(pattern) {
        Ok(re) => Some(re.is_match(text)),
        Err(_) => None,
    }
}

/// The comma-separated pieces of a string. Splitting keeps empty
/// pieces, so the empty string yields one empty piece.
pub open spec fn split_commas(s: Seq<char>) -> Seq<Seq<char>>
    decreases s.len(),
{
    if s.len() == 0 {
        seq![Seq::<char>::empty()]
    } else {
        let rest = split_commas(s.drop_last());
        if s.last() == ',' {
            rest.push(Seq::<char>::empty())
        } else {
            rest.update(rest.len() - 1, rest.last().push(s.last()))
        }
    }
}

pub proof fn lemma_split_commas_len(s: Seq<char>)
    ensures
        split_commas(s).len() >= 1,
    decreases s.len(),
{
    if s.len() > 0 {
        lemma_split_commas_len(s.drop_last());
    }
}

/// Splits a comma-separated string into its pieces, as the tag filter
/// does.
pub fn split_tags(s: &str) -> (r: Vec<String>)
    ensures
        r.deep_view() == split_commas(s@),
{
    let n = s.unicode_len();
    let mut done: Vec<String> = Vec::new();
    let mut cur = String::new();
    let mut i: usize = 0;
    while i < n
        invariant
            0 <= i <= n,
            n == s@.len(),
            split_commas(s@.subrange(0, i as int)) =~= done.deep_view().push(cur@),
        decreases n - i,
    {
        let c = s.get_char(i);
        proof {
            let pre = s@.subrange(0, i as int);
            let post = s@.subrange(0, i + 1);
            assert(post.drop_last() =~= pre);
            assert(post.last() == s@[i as int]);
            lemma_split_commas_len(pre);
        }
        let ghost old_done = done.deep_view();
        let ghost old_cur = cur@;
        if c == ',' {
            done.push(cur);
            cur = String::new();
            proof {
                assert(done.deep_view() =~= old_done.push(old_cur));
                assert(split_commas(s@.subrange(0, i + 1)) =~= done.deep_view().push(cur@));
            }
        } else {
            push_char(&mut cur, c);
            proof {
                assert(old_done.push(old_cur).update(old_done.len() as int, cur@) =~= old_done.push(
                    cur@,
                ));
                assert(split_commas(s@.subrange(0, i + 1)) =~= done.deep_view().push(cur@));
            }
        }
        i = i + 1;
    }
    proof {
        assert(s@.subrange(0, n as int) =~= s@);
    }
    let ghost final_done = done.deep_view();
    let ghost final_cur = cur@;
    done.push(cur);
    proof {
        assert(done.deep_view() =~= final_done.push(final_cur));
    }
    done
}

/// Copies an optional string, keeping every character.
pub(crate) fn clone_opt_string(v: &Option<String>) -> (r: Option<String>)
    ensures
        r == *v,
{
    match v {
        Some(s) => Some(s.clone()),
        None => None,
    }
}

/// Copies a vector of integers.
pub(crate) fn clone_i64_vec(v: &Vec<i64>) -> (r: Vec<i64>)
    ensures
        r@ == v@,
{
    let mut out: Vec<i64> = Vec::new();
    let mut i: usize = 0;
    while i < v.len()
        invariant
            0 <= i <= v.len(),
            out.len() == i,
            forall|j: int| 0 <= j < i ==> out@[j] == v@[j],
        decreases v.len() - i,
    {
        out.push(v[i]);
        i = i + 1;
    }
    proof {
        assert(out@ =~= v@);
    }
    out
}

} // verus!
