//! Decoding of MText inline formatting codes into plain text, shared by the
//! SVG and PDF exporters.

use crate::text::{chars_of, push_char};
use vstd::prelude::*;

verus! {

/// Position of the first `;` in `t`, or `t.len()` when there is none.
pub open spec fn semi_pos(t: Seq<char>) -> nat
    decreases t.len(),
{
    if t.len() == 0 {
        0
    } else if t[0] == ';' {
        0
    } else {
        1 + semi_pos(t.skip(1))
    }
}

pub proof fn lemma_semi_pos_bound(t: Seq<char>)
    ensures
        semi_pos(t) <= t.len(),
        semi_pos(t) < t.len() ==> t[semi_pos(t) as int] == ';',
        forall|i: int| 0 <= i < semi_pos(t) ==> t[i] != ';',
    decreases t.len(),
{
    if t.len() > 0 && t[0] != ';' {
        lemma_semi_pos_bound(t.skip(1));
        assert forall|i: int| 0 <= i < semi_pos(t) implies t[i] != ';' by {
            if i > 0 {
                assert(t[i] == t.skip(1)[i - 1]);
            }
        }
    }
}

/// What follows a `\code…;` parameter whose text starts `t`: everything
/// after the first `;`, or nothing when the parameter is unterminated.
pub open spec fn after_param(t: Seq<char>) -> Seq<char> {
    if semi_pos(t) < t.len() {
        t.skip(semi_pos(t) + 1int)
    } else {
        Seq::empty()
    }
}

pub proof fn lemma_after_param_len(t: Seq<char>)
    ensures
        after_param(t).len() <= t.len(),
{
    lemma_semi_pos_bound(t);
}

/// Stacked fraction text `\Sa^b;` rendered as `a/b`.
pub open spec fn stack_text(t: Seq<char>) -> Seq<char> {
    t.take(semi_pos(t) as int).map_values(|c: char| if c == '^' { '/' } else { c })
}

/// Codes whose parameter runs to the next `;` and is dropped.
pub open spec fn is_param_code(c: char) -> bool {
    c == 'f' || c == 'F' || c == 'H' || c == 'h' || c == 'C' || c == 'c' || c == 'T' || c == 't'
        || c == 'Q' || c == 'q' || c == 'W' || c == 'w' || c == 'A' || c == 'a' || c == 'L' || c
        == 'l' || c == 'O' || c == 'o' || c == 'K' || c == 'k'
}

/// Plain text of MText `s`: `\P` is a line break, parameter codes are
/// dropped through their `;`, `\Sa^b;` becomes `a/b`, `\\`, `\{`, `\}` are
/// literal, grouping braces are dropped, and any other backslash is kept.
pub open spec fn mtext_plain(s: Seq<char>) -> Seq<char>
    decreases s.len(),
{
    if s.len() == 0 {
        Seq::empty()
    } else if s[0] == '\\' {
        if s.len() == 1 {
            seq!['\\']
        } else {
            let c = s[1];
            let t = s.skip(2);
            proof {
                lemma_after_param_len(t);
            }
            if c == 'P' || c == 'p' {
                seq!['\n'] + mtext_plain(t)
            } else if is_param_code(c) {
                mtext_plain(after_param(t))
            } else if c == 'S' || c == 's' {
                stack_text(t) + mtext_plain(after_param(t))
            } else if c == '\\' || c == '{' || c == '}' {
                seq![c] + mtext_plain(t)
            } else {
                seq!['\\'] + mtext_plain(s.skip(1))
            }
        }
    } else if s[0] == '{' || s[0] == '}' {
        mtext_plain(s.skip(1))
    } else {
        seq![s[0]] + mtext_plain(s.skip(1))
    }
}

fn is_param_code_exec(c: char) -> (b: bool)
    ensures
        b == is_param_code(c),
{
    c == 'f' || c == 'F' || c == 'H' || c == 'h' || c == 'C' || c == 'c' || c == 'T' || c == 't'
        || c == 'Q' || c == 'q' || c == 'W' || c == 'w' || c == 'A' || c == 'a' || c == 'L' || c
        == 'l' || c == 'O' || c == 'o' || c == 'K' || c == 'k'
}

/// Index just past the `;` that ends the parameter starting at `from`, or
/// `v.len()` when none follows; also the position of that `;`.
fn scan_param(v: &Vec<char>, from: usize) -> (r: (usize, usize))
    requires
        from <= v@.len(),
    ensures
        r.0 == from + semi_pos(v@.skip(from as int)),
        r.0 <= v@.len(),
        v@.skip(r.1 as int) == after_param(v@.skip(from as int)),
        r.1 <= v@.len(),
{
    let mut j = from;
    proof {
        lemma_semi_pos_bound(v@.skip(from as int));
    }
    while j < v.len() && v[j] != ';'
        invariant
            from <= j <= v@.len(),
            semi_pos(v@.skip(from as int)) == (j - from) + semi_pos(v@.skip(j as int)),
        decreases v.len() - j,
    {
        assert(v@.skip(j as int).skip(1) =~= v@.skip(j + 1));
        j += 1;
    }
    if j < v.len() {
        assert(semi_pos(v@.skip(j as int)) == 0);
        assert(v@.skip(from as int).skip(semi_pos(v@.skip(from as int)) + 1int) =~= v@.skip(j + 1));
        (j, j + 1)
    } else {
        assert(v@.skip(j as int) =~= Seq::<char>::empty());
        assert(v@.skip(v@.len() as int) =~= Seq::<char>::empty());
        (j, j)
    }
}

/// Strip MText formatting codes and return plain text with `\n` for line
/// breaks.
pub fn strip_mtext_codes(s: &str) -> (r: String)
    ensures
        r@ == mtext_plain(s@),
{
    let v = chars_of(s);
    let mut out = String::new();
    let mut i: usize = 0;
    assert(v@.skip(0) =~= v@);
    while i < v.len()
        invariant
            v@ == s@,
            i <= v@.len(),
            mtext_plain(s@) == out@ + mtext_plain(v@.skip(i as int)),
        decreases v.len() - i,
    {
        let ghost t0 = v@.skip(i as int);
        let c = v[i];
        if c == '\\' {
            if i + 1 == v.len() {
                push_char(&mut out, '\\');
                assert(v@.skip(i + 1) =~= Seq::<char>::empty());
                i += 1;
            } else {
                let d = v[i + 1];
                assert(t0[1] == d);
                assert(t0.skip(2) =~= v@.skip(i + 2));
                if d == 'P' || d == 'p' {
                    push_char(&mut out, '\n');
                    i += 2;
                } else if is_param_code_exec(d) {
                    let (_semi, next) = scan_param(&v, i + 2);
                    i = next;
                } else if d == 'S' || d == 's' {
                    let (semi, next) = scan_param(&v, i + 2);
                    let mut k = i + 2;
                    let ghost out0 = out@;
                    while k < semi
                        invariant
                            i + 2 <= k <= semi <= v@.len(),
                            out@ == out0 + stack_text(v@.skip(i + 2)).take(k - (i + 2)),
                            semi == i + 2 + semi_pos(v@.skip(i + 2)),
                        decreases semi - k,
                    {
                        let ch = v[k];
                        let mapped = if ch == '^' {
                            '/'
                        } else {
                            ch
                        };
                        proof {
                            lemma_semi_pos_bound(v@.skip(i + 2));
                            assert(stack_text(v@.skip(i + 2))[k - (i + 2)] == mapped);
                            assert(stack_text(v@.skip(i + 2)).take(k + 1 - (i + 2)) =~= stack_text(
                                v@.skip(i + 2),
                            ).take(k - (i + 2)).push(mapped));
                        }
                        push_char(&mut out, mapped);
                        k += 1;
                    }
                    proof {
                        lemma_semi_pos_bound(v@.skip(i + 2));
                        assert(stack_text(v@.skip(i + 2)).take(k - (i + 2)) =~= stack_text(
                            v@.skip(i + 2),
                        ));
                    }
                    i = next;
                } else if d == '\\' || d == '{' || d == '}' {
                    push_char(&mut out, d);
                    i += 2;
                } else {
                    push_char(&mut out, '\\');
                    assert(t0.skip(1) =~= v@.skip(i + 1));
                    i += 1;
                }
            }
        } else if c == '{' || c == '}' {
            assert(t0.skip(1) =~= v@.skip(i + 1));
            i += 1;
        } else {
            push_char(&mut out, c);
            assert(t0.skip(1) =~= v@.skip(i + 1));
            i += 1;
        }
    }
    assert(v@.skip(i as int) =~= Seq::<char>::empty());
    out
}

proof fn lemma_semi_pos_prefix(p: Seq<char>, rest: Seq<char>)
    requires
        !p.contains(';'),
    ensures
        semi_pos(p + seq![';'] + rest) == p.len(),
    decreases p.len(),
{
    let t = p + seq![';'] + rest;
    if p.len() == 0 {
        assert(t[0] == ';');
    } else {
        let q = p.drop_first();
        assert(!q.contains(';')) by {
            if q.contains(';') {
                let i = choose|i: int| 0 <= i < q.len() && q[i] == ';';
                assert(p[i + 1] == ';');
            }
        }
        assert(t[0] == p[0]);
        assert(p[0] != ';') by {
            if p[0] == ';' {
                assert(p.contains(';'));
            }
        }
        lemma_semi_pos_prefix(q, rest);
        assert(t.skip(1) =~= q + seq![';'] + rest);
    }
}

/// A formatting code whose parameter runs to `;` (font `\f`, height `\H`,
/// colour `\C`, tracking `\T`, oblique `\Q`, width `\W`, alignment `\A`,
/// underline `\L`, overline `\O`, strike-through `\K`, either case)
/// leaves no text: with its parameter and `;` it is dropped, and the text
/// after it reads as it would alone.
pub proof fn lemma_param_code_dropped(code: char, param: Seq<char>, rest: Seq<char>)
    requires
        seq!['f', 'F', 'H', 'h', 'C', 'c', 'T', 't', 'Q', 'q', 'W', 'w', 'A', 'a', 'L', 'l', 'O', 'o', 'K', 'k'].contains(
            code,
        ),
        !param.contains(';'),
    ensures
        mtext_plain(seq!['\\', code] + param + seq![';'] + rest) == mtext_plain(rest),
{
    let s = seq!['\\', code] + param + seq![';'] + rest;
    let t = param + seq![';'] + rest;
    let lits = seq!['f', 'F', 'H', 'h', 'C', 'c', 'T', 't', 'Q', 'q', 'W', 'w', 'A', 'a', 'L', 'l', 'O', 'o', 'K', 'k'];
    let i = choose|i: int| 0 <= i < lits.len() && lits[i] == code;
    assert(is_param_code(code));
    assert(s[0] == '\\' && s[1] == code);
    assert(s.skip(2) =~= t);
    lemma_semi_pos_prefix(param, rest);
    assert(t.skip(param.len() + 1int) =~= rest);
}

} // verus!
