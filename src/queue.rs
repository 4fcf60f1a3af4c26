use vstd::prelude::*;

verus! {

/// Unicode White_Space, the characters that `str::trim` removes: tab to
/// carriage return, space, next line, no-break space, ogham space mark, the
/// en quad to hair space range, line and paragraph separators, narrow
/// no-break space, medium mathematical space and ideographic space.
pub open spec fn is_space(c: char) -> bool {
    ||| '\t' <= c <= '\r'
    ||| c == ' ' || c == '\u{85}' || c == '\u{A0}' || c == '\u{1680}'
    ||| '\u{2000}' <= c <= '\u{200A}'
    ||| c == '\u{2028}' || c == '\u{2029}' || c == '\u{202F}' || c == '\u{205F}'
    ||| c == '\u{3000}'
}

/// `s` cut at every line feed; text with no line feed is one line, and a final
/// line feed leaves an empty last line.
pub open spec fn split_lines(s: Seq<char>) -> Seq<Seq<char>>
    decreases s.len(),
{
    if s.len() == 0 {
        seq![Seq::empty()]
    } else {
        let lines = split_lines(s.drop_last());
        if s.last() == '\n' {
            lines.push(Seq::empty())
        } else {
            lines.update(lines.len() - 1, lines.last().push(s.last()))
        }
    }
}

pub open spec fn trim_start(l: Seq<char>) -> Seq<char>
    decreases l.len(),
{
    if l.len() > 0 && is_space(l[0]) {
        trim_start(l.drop_first())
    } else {
        l
    }
}

pub open spec fn trim_end(l: Seq<char>) -> Seq<char>
    decreases l.len(),
{
    if l.len() > 0 && is_space(l.last()) {
        trim_end(l.drop_last())
    } else {
        l
    }
}

pub open spec fn trim(l: Seq<char>) -> Seq<char> {
    trim_end(trim_start(l))
}

/// The lines trimmed of whitespace, blank ones left out, in order.
pub open spec fn entries_of_lines(lines: Seq<Seq<char>>) -> Seq<Seq<char>>
    decreases lines.len(),
{
    if lines.len() == 0 {
        Seq::empty()
    } else {
        let before = entries_of_lines(lines.drop_last());
        let t = trim(lines.last());
        if t.len() > 0 {
            before.push(t)
        } else {
            before
        }
    }
}

/// The identifiers listed in a queue file's text.
pub open spec fn queue_entries(text: Seq<char>) -> Seq<Seq<char>> {
    entries_of_lines(split_lines(text))
}

/// The whitespace-trimmed form of `text[a..b]`, given as its bounds.
fn trimmed_bounds(text: &str, a: usize, b: usize) -> (r: (usize, usize))
    requires
        a <= b <= text@.len(),
    ensures
        a <= r.0 <= r.1 <= b,
        text@.subrange(r.0 as int, r.1 as int) == trim(text@.subrange(a as int, b as int)),
{
    let ghost s = text@;
    let mut lo: usize = a;
    while lo < b && is_space_char(text.get_char(lo))
        invariant
            s == text@,
            a <= lo <= b <= s.len(),
            trim_start(s.subrange(a as int, b as int)) == trim_start(s.subrange(lo as int, b as int)),
        decreases b - lo,
    {
        proof {
            assert(s.subrange(lo as int, b as int).drop_first() =~= s.subrange(lo + 1, b as int));
        }
        lo += 1;
    }
    let mut hi: usize = b;
    while hi > lo && is_space_char(text.get_char(hi - 1))
        invariant
            s == text@,
            a <= lo <= hi <= b <= s.len(),
            trim_start(s.subrange(a as int, b as int)) == s.subrange(lo as int, b as int),
            trim(s.subrange(a as int, b as int)) == trim_end(s.subrange(lo as int, hi as int)),
        decreases hi - lo,
    {
        proof {
            assert(s.subrange(lo as int, hi as int).drop_last() =~= s.subrange(lo as int, hi - 1));
        }
        hi -= 1;
    }
    (lo, hi)
}

fn is_space_char(c: char) -> (r: bool)
    ensures
        r == is_space(c),
{
    ('\t' <= c && c <= '\r') || c == ' ' || c == '\u{85}' || c == '\u{A0}' || c == '\u{1680}'
        || ('\u{2000}' <= c && c <= '\u{200A}') || c == '\u{2028}' || c == '\u{2029}' || c
        == '\u{202F}' || c == '\u{205F}' || c == '\u{3000}'
}

/// Appends the trimmed form of `text[a..b]` to `ids` unless it is blank.
fn push_entry(text: &str, a: usize, b: usize, ids: &mut Vec<String>)
    requires
        a <= b <= text@.len(),
    ensures
        ({
            let t = trim(text@.subrange(a as int, b as int));
            &&& t.len() > 0 ==> final(ids).deep_view() == old(ids).deep_view().push(t)
            &&& t.len() == 0 ==> final(ids).deep_view() == old(ids).deep_view()
        }),
{
    let (lo, hi) = trimmed_bounds(text, a, b);
    if lo < hi {
        let id = String::from_str(text.substring_char(lo, hi));
        let ghost before = ids.deep_view();
        ids.push(id);
        proof {
            assert(ids.deep_view() =~= before.push(id@));
        }
    }
}

/// The identifiers of a queue file's text: one per line, trimmed of
/// whitespace, blank lines left out, in the order of the file.
pub fn parse_queue(text: &str) -> (ids: Vec<String>)
    ensures
        ids.deep_view() == queue_entries(text@),
{
    let ghost s = text@;
    let n: usize = text.unicode_len();
    let mut ids: Vec<String> = Vec::new();
    let ghost mut done: Seq<Seq<char>> = Seq::empty();
    let mut start: usize = 0;
    let mut i: usize = 0;
    proof {
        assert(s.take(0) =~= Seq::<char>::empty());
        assert(ids.deep_view() =~= Seq::<Seq<char>>::empty());
        assert(split_lines(s.take(0)) =~= done.push(s.subrange(0, 0)));
    }
    while i < n
        invariant
            s == text@,
            n == s.len(),
            start <= i <= n,
            split_lines(s.take(i as int)) == done.push(s.subrange(start as int, i as int)),
            ids.deep_view() == entries_of_lines(done),
        decreases n - i,
    {
        let c = text.get_char(i);
        proof {
            assert(s.take(i + 1).drop_last() =~= s.take(i as int));
            assert(s.take(i + 1).last() == c);
        }
        if c == '\n' {
            push_entry(text, start, i, &mut ids);
            proof {
                let line = s.subrange(start as int, i as int);
                assert(done.push(line).drop_last() =~= done);
                done = done.push(line);
                assert(s.subrange(i + 1, i + 1) =~= Seq::<char>::empty());
            }
            start = i + 1;
        } else {
            proof {
                assert(s.subrange(start as int, i as int).push(c) =~= s.subrange(
                    start as int,
                    i + 1,
                ));
                assert(done.push(s.subrange(start as int, i as int)).update(
                    done.len() as int,
                    s.subrange(start as int, i + 1),
                ) =~= done.push(s.subrange(start as int, i + 1)));
            }
        }
        i += 1;
    }
    push_entry(text, start, n, &mut ids);
    proof {
        let line = s.subrange(start as int, n as int);
        assert(done.push(line).drop_last() =~= done);
        assert(s.take(n as int) =~= s);
    }
    ids
}

} // verus!
