use vstd::prelude::*;

verus! {

/// A line can be framed: it holds no newline and does not end in a carriage
/// return (which reading would strip).
pub open spec fn is_line(l: Seq<u8>) -> bool {
    &&& forall|j: int| 0 <= j < l.len() ==> l[j] != 10u8
    &&& !(l.len() > 0 && l.last() == 13u8)
}

/// Each line followed by a newline, all in order.
pub open spec fn frame_spec(lines: Seq<Seq<u8>>) -> Seq<u8>
    decreases lines.len(),
{
    if lines.len() == 0 {
        Seq::empty()
    } else {
        frame_spec(lines.drop_last()) + lines.last() + seq![10u8]
    }
}

/// `l` without one carriage return at its end.
pub open spec fn strip_cr(l: Seq<u8>) -> Seq<u8> {
    if l.len() > 0 && l.last() == 13u8 {
        l.drop_last()
    } else {
        l
    }
}

/// The index of the first newline in `t`, if there is one.
pub open spec fn first_newline(t: Seq<u8>) -> Option<int>
    decreases t.len(),
{
    if t.len() == 0 {
        None
    } else if t[0] == 10u8 {
        Some(0)
    } else {
        match first_newline(t.drop_first()) {
            Some(i) => Some(i + 1),
            None => None,
        }
    }
}

/// The lines of `t` as they are read back: split at each newline, with no
/// empty line after a final newline, and a carriage return before a newline
/// dropped.
pub open spec fn split_spec(t: Seq<u8>) -> Seq<Seq<u8>>
    decreases t.len(),
{
    if t.len() == 0 {
        Seq::empty()
    } else {
        match first_newline(t) {
            None => seq![strip_cr(t)],
            Some(i) => if 0 <= i < t.len() {
                seq![strip_cr(t.take(i))] + split_spec(t.skip(i + 1))
            } else {
                Seq::empty()
            },
        }
    }
}

/// The bytes of each line, in order.
pub open spec fn byte_lines(v: Seq<Vec<u8>>) -> Seq<Seq<u8>> {
    v.map_values(|l: Vec<u8>| l@)
}

proof fn lemma_first_newline_at(t: Seq<u8>, i: int)
    requires
        0 <= i < t.len(),
        t[i] == 10u8,
        forall|j: int| 0 <= j < i ==> t[j] != 10u8,
    ensures
        first_newline(t) == Some(i),
    decreases i,
{
    if i > 0 {
        lemma_first_newline_at(t.drop_first(), i - 1);
    }
}

proof fn lemma_first_newline_none(t: Seq<u8>)
    requires
        forall|j: int| 0 <= j < t.len() ==> t[j] != 10u8,
    ensures
        first_newline(t) is None,
    decreases t.len(),
{
    if t.len() > 0 {
        lemma_first_newline_none(t.drop_first());
    }
}

proof fn lemma_first_newline_found(t: Seq<u8>)
    ensures
        first_newline(t) matches Some(i) ==> 0 <= i < t.len() && t[i] == 10u8 && forall|j: int|
            0 <= j < i ==> t[j] != 10u8,
        first_newline(t) is None ==> forall|j: int| 0 <= j < t.len() ==> t[j] != 10u8,
    decreases t.len(),
{
    if t.len() > 0 {
        lemma_first_newline_found(t.drop_first());
        if t[0] != 10u8 {
            assert forall|j: int| 1 <= j < t.len() implies t[j] == t.drop_first()[j - 1] by {}
        }
    }
}

/// Appending one framed line to a log that is empty or ends in a newline
/// leaves every line already there as it was, and adds that line after them.
pub proof fn lemma_append_line(t: Seq<u8>, l: Seq<u8>)
    requires
        t.len() == 0 || t.last() == 10u8,
        is_line(l),
    ensures
        split_spec(t + l + seq![10u8]) == split_spec(t).push(l),
    decreases t.len(),
{
    let x = l + seq![10u8];
    assert(t + l + seq![10u8] == t + x);
    if t.len() == 0 {
        assert(t + x =~= x);
        lemma_first_newline_at(x, l.len() as int);
        assert(x.take(l.len() as int) =~= l);
        assert(x.skip(l.len() as int + 1) =~= Seq::<u8>::empty());
        assert(strip_cr(l) == l);
        assert(split_spec(x.skip(l.len() as int + 1)) =~= Seq::<Seq<u8>>::empty());
        assert(split_spec(x) =~= seq![l]);
        assert(split_spec(t).push(l) =~= seq![l]);
    } else {
        lemma_first_newline_found(t);
        let i = first_newline(t)->Some_0;
        lemma_first_newline_at(t + x, i);
        let rest = t.skip(i + 1);
        assert((t + x).take(i) =~= t.take(i));
        assert((t + x).skip(i + 1) =~= rest + x);
        if rest.len() > 0 {
            assert(rest.last() == t.last());
        }
        lemma_append_line(rest, l);
        assert(rest + x == rest + l + seq![10u8]);
        assert(split_spec(t) == seq![strip_cr(t.take(i))] + split_spec(rest));
        assert(split_spec(t + x) == seq![strip_cr(t.take(i))] + split_spec(rest + x));
        assert(split_spec(t + x) =~= split_spec(t).push(l));
    }
}

/// Appending framed lines to a log that is empty or ends in a newline keeps
/// its lines as they were, byte for byte, and adds the new lines after them
/// in order.
pub proof fn lemma_appends_keep_lines(t: Seq<u8>, more: Seq<Seq<u8>>)
    requires
        t.len() == 0 || t.last() == 10u8,
        forall|k: int| 0 <= k < more.len() ==> is_line(#[trigger] more[k]),
    ensures
        split_spec(t + frame_spec(more)) == split_spec(t) + more,
    decreases more.len(),
{
    if more.len() == 0 {
        assert(t + frame_spec(more) =~= t);
        assert(split_spec(t) + more =~= split_spec(t));
    } else {
        let init = more.drop_last();
        lemma_appends_keep_lines(t, init);
        let u = t + frame_spec(init);
        if init.len() > 0 {
            assert(u.last() == 10u8);
        } else {
            assert(u =~= t);
        }
        assert(is_line(more[more.len() - 1]));
        lemma_append_line(u, more.last());
        assert(t + frame_spec(more) =~= u + more.last() + seq![10u8]);
        assert(split_spec(t) + more =~= (split_spec(t) + init).push(more.last()));
    }
}

/// A log written from framed lines reads back as those lines.
pub proof fn lemma_frame_split(lines: Seq<Seq<u8>>)
    requires
        forall|k: int| 0 <= k < lines.len() ==> is_line(#[trigger] lines[k]),
    ensures
        split_spec(frame_spec(lines)) == lines,
{
    lemma_appends_keep_lines(Seq::empty(), lines);
    assert(Seq::<u8>::empty() + frame_spec(lines) =~= frame_spec(lines));
    assert(split_spec(Seq::<u8>::empty()) + lines =~= lines);
}

/// Whether `l` can be framed as one line.
pub fn check_line(l: &Vec<u8>) -> (b: bool)
    ensures
        b == is_line(l@),
{
    let mut j: usize = 0;
    while j < l.len()
        invariant
            j <= l.len(),
            forall|k: int| 0 <= k < j ==> l@[k] != 10u8,
        decreases l.len() - j,
    {
        if l[j] == 10u8 {
            return false;
        }
        j = j + 1;
    }
    !(l.len() > 0 && l[l.len() - 1] == 13u8)
}

/// `line` followed by a newline, ready to be appended to the log; nothing when
/// the line cannot be framed.
pub fn frame_line(line: Vec<u8>) -> (r: Option<Vec<u8>>)
    ensures
        r is Some <==> is_line(line@),
        r is Some ==> r->Some_0@ == line@ + seq![10u8],
{
    if !check_line(&line) {
        return None;
    }
    let mut out = line;
    out.push(10u8);
    Some(out)
}

/// The whole log written from `lines`, one framed line each, in order;
/// nothing when one of them cannot be framed.
pub fn frame_log(lines: &Vec<Vec<u8>>) -> (r: Option<Vec<u8>>)
    ensures
        r is Some <==> forall|k: int| 0 <= k < lines@.len() ==> is_line(#[trigger] lines@[k]@),
        r is Some ==> r->Some_0@ == frame_spec(byte_lines(lines@)),
{
    let mut out: Vec<u8> = Vec::new();
    let mut i: usize = 0;
    while i < lines.len()
        invariant
            i <= lines.len(),
            forall|k: int| 0 <= k < i ==> is_line(#[trigger] lines@[k]@),
            out@ == frame_spec(byte_lines(lines@.take(i as int))),
        decreases lines.len() - i,
    {
        let l = &lines[i];
        if !check_line(l) {
            return None;
        }
        let mut j: usize = 0;
        let ghost start = out@;
        while j < l.len()
            invariant
                j <= l.len(),
                out@ == start + l@.take(j as int),
            decreases l.len() - j,
        {
            out.push(l[j]);
            j = j + 1;
            proof {
                assert(l@.take(j as int) =~= l@.take(j - 1) + seq![l@[j - 1]]);
            }
        }
        out.push(10u8);
        proof {
            let bl = byte_lines(lines@.take(i + 1));
            assert(bl.drop_last() =~= byte_lines(lines@.take(i as int)));
            assert(bl.last() == l@);
            assert(l@.take(l@.len() as int) =~= l@);
        }
        i = i + 1;
    }
    proof {
        assert(lines@.take(lines@.len() as int) =~= lines@);
    }
    Some(out)
}

/// The lines of the log `text`, as `split_spec` reads them.
pub fn split_lines(text: &Vec<u8>) -> (r: Vec<Vec<u8>>)
    ensures
        byte_lines(r@) == split_spec(text@),
{
    let mut res: Vec<Vec<u8>> = Vec::new();
    let mut cur: Vec<u8> = Vec::new();
    let mut start: usize = 0;
    let mut i: usize = 0;
    proof {
        assert(text@.skip(0) =~= text@);
        assert(byte_lines(res@) + split_spec(text@) =~= split_spec(text@));
    }
    while i < text.len()
        invariant
            start <= i <= text.len(),
            cur@ == text@.subrange(start as int, i as int),
            forall|k: int| start <= k < i ==> text@[k] != 10u8,
            byte_lines(res@) + split_spec(text@.skip(start as int)) == split_spec(text@),
        decreases text.len() - i,
    {
        if text[i] == 10u8 {
            let ghost rest = text@.skip(start as int);
            proof {
                lemma_first_newline_at(rest, i - start);
                assert(rest.take(i - start) =~= cur@);
                assert(rest.skip(i - start + 1) =~= text@.skip(i + 1));
            }
            let mut line = cur;
            if line.len() > 0 && line[line.len() - 1] == 13u8 {
                line.pop();
            }
            proof {
                assert(line@ == strip_cr(rest.take(i - start)));
                assert(byte_lines(res@.push(line)) =~= byte_lines(res@).push(line@));
                assert(byte_lines(res@).push(line@) + split_spec(text@.skip(i + 1)) =~= byte_lines(
                    res@,
                ) + split_spec(rest));
            }
            res.push(line);
            cur = Vec::new();
            start = i + 1;
        } else {
            cur.push(text[i]);
        }
        i = i + 1;
        proof {
            assert(cur@ =~= text@.subrange(start as int, i as int));
        }
    }
    let ghost rest = text@.skip(start as int);
    if start < text.len() {
        proof {
            lemma_first_newline_none(rest);
            assert(rest =~= cur@);
        }
        let mut line = cur;
        if line.len() > 0 && line[line.len() - 1] == 13u8 {
            line.pop();
        }
        proof {
            assert(byte_lines(res@.push(line)) =~= byte_lines(res@).push(line@));
            assert(byte_lines(res@).push(line@) =~= byte_lines(res@) + split_spec(rest));
        }
        res.push(line);
    } else {
        proof {
            assert(rest.len() == 0);
            assert(byte_lines(res@) + split_spec(rest) =~= byte_lines(res@));
        }
    }
    res
}

} // verus!
