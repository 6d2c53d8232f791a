use vstd::prelude::*;

verus! {

/// The pieces of `s` between newline characters, in order. There is always
/// one more piece than there are newlines.
pub open spec fn segments(s: Seq<char>) -> Seq<Seq<char>>
    decreases s.len(),
{
    if s.len() == 0 {
        seq![Seq::empty()]
    } else {
        let prev = segments(s.drop_last());
        if s.last() == '\n' {
            prev.push(Seq::empty())
        } else {
            prev.update(prev.len() - 1, prev.last().push(s.last()))
        }
    }
}

/// A line ended by `"\r\n"` loses its carriage return as well.
pub open spec fn strip_cr(l: Seq<char>) -> Seq<char> {
    if l.len() > 0 && l.last() == '\r' {
        l.drop_last()
    } else {
        l
    }
}

/// The lines of `s`: split at each `'\n'` (dropping a `'\r'` just before it),
/// where a final line ending is optional and the empty text has no lines.
pub open spec fn lines_of(s: Seq<char>) -> Seq<Seq<char>> {
    let segs = segments(s);
    let ended = segs.drop_last().map_values(|l: Seq<char>| strip_cr(l));
    if segs.last().len() == 0 {
        ended
    } else {
        ended.push(segs.last())
    }
}

proof fn lemma_segments_nonempty(s: Seq<char>)
    ensures
        segments(s).len() >= 1,
    decreases s.len(),
{
    if s.len() > 0 {
        lemma_segments_nonempty(s.drop_last());
    }
}

/// The characters of `text`, in order.
pub fn chars_of(text: &str) -> (r: Vec<char>)
    ensures
        r@ == text@,
{
    let mut out: Vec<char> = Vec::new();
    for c in it: text.chars()
        invariant
            out@ == it.seq().take(it.index() as int),
    {
        out.push(c);
    }
    out
}

/// The views of a list of strings.
pub open spec fn views_of(v: Seq<String>) -> Seq<Seq<char>> {
    v.map_values(|l: String| l@)
}

/// Splits `text` into its lines.
pub fn split_lines(text: &str) -> (r: Vec<String>)
    ensures
        views_of(r@) == lines_of(text@),
{
    let cs = chars_of(text);
    let n = cs.len();
    let mut lines: Vec<String> = Vec::new();
    let mut start: usize = 0;
    let mut i: usize = 0;
    proof {
        assert(cs@.take(0) =~= Seq::<char>::empty());
    }
    while i < n
        invariant
            n == cs@.len(),
            cs@ == text@,
            start <= i <= n,
            segments(cs@.take(i as int)).len() >= 1,
            views_of(lines@) == segments(cs@.take(i as int)).drop_last().map_values(
                |l: Seq<char>| strip_cr(l),
            ),
            segments(cs@.take(i as int)).last() == cs@.subrange(start as int, i as int),
        decreases n - i,
    {
        let ghost before = cs@.take(i as int);
        let ghost after = cs@.take(i + 1);
        proof {
            assert(after.drop_last() =~= before);
            lemma_segments_nonempty(after);
        }
        if cs[i] == '\n' {
            let end = if i > start && cs[i - 1] == '\r' {
                i - 1
            } else {
                i
            };
            let line = String::from_str(text.substring_char(start, end));
            proof {
                let seg = cs@.subrange(start as int, i as int);
                assert(strip_cr(seg) =~= cs@.subrange(start as int, end as int));
            }
            let ghost old_lines = lines@;
            lines.push(line);
            start = i + 1;
            proof {
                assert(views_of(lines@) =~= views_of(old_lines).push(strip_cr(segments(before).last())));
                assert(segments(before).map_values(|l: Seq<char>| strip_cr(l)) =~=
                    segments(before).drop_last().map_values(|l: Seq<char>| strip_cr(l)).push(
                    strip_cr(segments(before).last())));
                assert(segments(after) == segments(before).push(Seq::empty()));
                assert(segments(after).drop_last() =~= segments(before));
                assert(views_of(lines@) =~= segments(after).drop_last().map_values(
                    |l: Seq<char>| strip_cr(l),
                ));
                assert(cs@.subrange(start as int, i + 1) =~= Seq::<char>::empty());
            }
        } else {
            proof {
                let prev = segments(before);
                assert(segments(after) == prev.update(prev.len() - 1, prev.last().push(cs@[i as int])));
                assert(segments(after).drop_last() =~= prev.drop_last());
                assert(cs@.subrange(start as int, i + 1) =~= cs@.subrange(start as int, i as int).push(cs@[i as int]));
            }
        }
        i = i + 1;
    }
    proof {
        assert(cs@.take(n as int) =~= cs@);
    }
    if start < n {
        lines.push(String::from_str(text.substring_char(start, n)));
        proof {
            assert(views_of(lines@) =~= lines_of(text@));
        }
    } else {
        proof {
            assert(views_of(lines@) =~= lines_of(text@));
        }
    }
    lines
}

} // verus!
