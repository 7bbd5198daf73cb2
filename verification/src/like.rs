//! Pattern matching with SQL `LIKE` semantics, as SQLite applies them by
//! default: `%` matches any run of characters, `_` matches one character,
//! and ASCII letters match regardless of case.
use vstd::prelude::*;

verus! {

/// The code of `c` with ASCII upper-case letters folded to lower case.
pub open spec fn fold_code(c: char) -> u32 {
    let x = c as u32;
    if 65 <= x && x <= 90 {
        (x + 32) as u32
    } else {
        x
    }
}

/// Whether pattern character `p` (other than `%`) accepts text character `t`.
pub open spec fn like_char(p: char, t: char) -> bool {
    p == '_' || fold_code(p) == fold_code(t)
}

/// Whether the whole of `t` matches the `LIKE` pattern `p`.
pub open spec fn like_match(p: Seq<char>, t: Seq<char>) -> bool
    decreases p.len(), t.len(),
{
    if p.len() == 0 {
        t.len() == 0
    } else if p[0] == '%' {
        like_match(p.drop_first(), t) || (t.len() > 0 && like_match(p, t.drop_first()))
    } else {
        t.len() > 0 && like_char(p[0], t[0]) && like_match(p.drop_first(), t.drop_first())
    }
}

/// The pattern that SQL search filters build from a search term: the term
/// anywhere in the text.
pub open spec fn search_pattern(term: Seq<char>) -> Seq<char> {
    seq!['%'] + term + seq!['%']
}

proof fn lemma_like_step(p: Seq<char>, t: Seq<char>, i: int, j: int)
    requires
        0 <= i < p.len(),
        0 <= j <= t.len(),
    ensures
        like_match(p.skip(i), t.skip(j)) == if p[i] == '%' {
            like_match(p.skip(i + 1), t.skip(j)) || (j < t.len() && like_match(
                p.skip(i),
                t.skip(j + 1),
            ))
        } else {
            j < t.len() && like_char(p[i], t[j]) && like_match(p.skip(i + 1), t.skip(j + 1))
        },
{
    assert(p.skip(i).drop_first() =~= p.skip(i + 1));
    if j < t.len() {
        assert(t.skip(j).drop_first() =~= t.skip(j + 1));
    }
}

fn like_char_exec(p: char, t: char) -> (r: bool)
    ensures
        r == like_char(p, t),
{
    if p == '_' {
        return true;
    }
    let a = p as u32;
    let b = t as u32;
    let fa: u32 = if 65 <= a && a <= 90 { a + 32 } else { a };
    let fb: u32 = if 65 <= b && b <= 90 { b + 32 } else { b };
    fa == fb
}

/// Whether the characters `t` match the `LIKE` pattern characters `p`.
pub fn like_chars(p: &Vec<char>, t: &Vec<char>) -> (r: bool)
    ensures
        r == like_match(p@, t@),
{
    let plen = p.len();
    let tlen = t.len();
    // For the current i, row[j] answers whether t[j..] matches p[i..] (j < tlen)
    // and `end` whether the empty rest of t does.
    let mut row: Vec<bool> = Vec::new();
    let mut k: usize = 0;
    while k < tlen
        invariant
            k <= tlen,
            tlen == t.len(),
            row@.len() == k,
            forall|j: int| 0 <= j < k ==> !row@[j],
        decreases tlen - k,
    {
        row.push(false);
        k = k + 1;
    }
    let mut end = true;
    assert(p@.skip(plen as int).len() == 0);
    assert(t@.skip(tlen as int).len() == 0);
    let mut i = plen;
    while i > 0
        invariant
            i <= plen,
            plen == p.len(),
            tlen == t.len(),
            row@.len() == tlen,
            forall|j: int| 0 <= j < tlen ==> row@[j] == like_match(p@.skip(i as int), t@.skip(j)),
            end == like_match(p@.skip(i as int), t@.skip(tlen as int)),
        decreases i,
    {
        let ghost next = row@;
        let pc = p[i - 1];
        proof {
            lemma_like_step(p@, t@, i - 1, tlen as int);
        }
        let new_end = pc == '%' && end;
        let mut j = tlen;
        let mut old_right = end;
        let mut new_right = new_end;
        // Filled from the right: entries at positions j.. already hold row i - 1.
        while j > 0
            invariant
                0 < i <= plen,
                plen == p.len(),
                tlen == t.len(),
                j <= tlen,
                row@.len() == tlen,
                pc == p@[i - 1],
                end == like_match(p@.skip(i as int), t@.skip(tlen as int)),
                new_end == like_match(p@.skip(i - 1), t@.skip(tlen as int)),
                forall|q: int| 0 <= q < j ==> row@[q] == next[q],
                forall|q: int| 0 <= q < tlen ==> next[q] == like_match(p@.skip(i as int), t@.skip(q)),
                forall|q: int| j <= q < tlen ==> row@[q] == like_match(p@.skip(i - 1), t@.skip(q)),
                old_right == like_match(p@.skip(i as int), t@.skip(j as int)),
                new_right == like_match(p@.skip(i - 1), t@.skip(j as int)),
            decreases j,
        {
            let jj = j - 1;
            proof {
                lemma_like_step(p@, t@, i - 1, jj as int);
            }
            let old_here = row[jj];
            assert(old_here == next[jj as int]);
            assert(old_here == like_match(p@.skip(i as int), t@.skip(jj as int)));
            let v = if pc == '%' {
                old_here || new_right
            } else {
                like_char_exec(pc, t[jj]) && old_right
            };
            assert(v == like_match(p@.skip(i - 1), t@.skip(jj as int)));
            row.set(jj, v);
            old_right = old_here;
            new_right = v;
            j = jj;
        }
        end = new_end;
        i = i - 1;
    }
    assert(p@.skip(0) =~= p@);
    assert(t@.skip(0) =~= t@);
    if tlen == 0 {
        end
    } else {
        row[0]
    }
}

/// Whether `text` contains `term` under `LIKE '%term%'` matching.
pub fn like_search(term: &str, text: &str) -> (r: bool)
    ensures
        r == like_match(search_pattern(term@), text@),
{
    let mut p: Vec<char> = Vec::new();
    p.push('%');
    let tv = crate::text::chars_of(term);
    let mut k: usize = 0;
    while k < tv.len()
        invariant
            k <= tv@.len(),
            p@ == seq!['%'] + tv@.take(k as int),
        decreases tv@.len() - k,
    {
        p.push(tv[k]);
        k = k + 1;
        assert(p@ =~= seq!['%'] + tv@.take(k as int));
    }
    p.push('%');
    assert(p@ =~= search_pattern(term@));
    let t = crate::text::chars_of(text);
    like_chars(&p, &t)
}

} // verus!
