use vstd::prelude::*;

verus! {

/// The line terminator of the engine's text protocol.
pub const NEWLINE: u8 = 0x0a;

/// The terminator of a C string.
pub const NUL: u8 = 0;

/// The pieces of `s` between line terminators, in order; there is always
/// one more piece than terminators, and pieces may be empty.
pub open spec fn fragments(s: Seq<u8>) -> Seq<Seq<u8>>
    decreases s.len(),
{
    if s.len() == 0 {
        seq![Seq::empty()]
    } else {
        let prev = fragments(s.drop_last());
        if s.last() == NEWLINE {
            prev.push(Seq::empty())
        } else {
            prev.update(prev.len() - 1, prev.last().push(s.last()))
        }
    }
}

/// The non-empty pieces among `frags`, in order.
pub open spec fn non_empty(frags: Seq<Seq<u8>>) -> Seq<Seq<u8>>
    decreases frags.len(),
{
    if frags.len() == 0 {
        frags
    } else if frags.last().len() > 0 {
        non_empty(frags.drop_last()).push(frags.last())
    } else {
        non_empty(frags.drop_last())
    }
}

/// The alignment lines of an engine response, each with `name` put in
/// front: the engine leaves the read name out of its output.
pub open spec fn named_lines(name: Seq<u8>, response: Seq<u8>) -> Seq<Seq<u8>> {
    non_empty(fragments(response)).map_values(|l: Seq<u8>| name + l)
}

/// The single-record block the engine reads for one read: a placeholder
/// name line, the bases, a separator line, the qualities, and a C string
/// terminator.
pub open spec fn fastq_block(read: Seq<u8>, qual: Seq<u8>) -> Seq<u8> {
    seq![0x40u8, 0x61u8, NEWLINE] + read + seq![NEWLINE, 0x2bu8, NEWLINE] + qual + seq![NEWLINE, NUL]
}

/// `s` holds no C string terminator, so it passes the engine's
/// NUL-terminated protocol intact.
pub open spec fn nul_free(s: Seq<u8>) -> bool {
    forall|i: int| 0 <= i < s.len() ==> s[i] != NUL
}

pub(crate) proof fn lemma_fragments_len(s: Seq<u8>)
    ensures
        fragments(s).len() >= 1,
    decreases s.len(),
{
    if s.len() > 0 {
        lemma_fragments_len(s.drop_last());
    }
}

proof fn lemma_push_line(done: Seq<Seq<u8>>, cur: Seq<u8>, name: Seq<u8>, prev: Seq<Vec<u8>>, line: Vec<u8>)
    requires
        cur.len() > 0,
        line@ == name + cur,
        prev.map_values(|l: Vec<u8>| l@) == non_empty(done).map_values(|l: Seq<u8>| name + l),
    ensures
        prev.push(line).map_values(|l: Vec<u8>| l@) == non_empty(done.push(cur)).map_values(
            |l: Seq<u8>| name + l,
        ),
{
    assert(done.push(cur).drop_last() =~= done);
    assert(non_empty(done.push(cur)) == non_empty(done).push(cur));
    assert(non_empty(done).push(cur).map_values(|l: Seq<u8>| name + l) =~= non_empty(done).map_values(
        |l: Seq<u8>| name + l,
    ).push(name + cur));
    assert(prev.push(line).map_values(|l: Vec<u8>| l@) =~= prev.map_values(|l: Vec<u8>| l@).push(
        line@,
    ));
}

/// No piece between line terminators holds one.
pub open spec fn newline_free(l: Seq<u8>) -> bool {
    forall|j: int| 0 <= j < l.len() ==> l[j] != NEWLINE
}

proof fn lemma_fragments_newline_free(s: Seq<u8>)
    ensures
        forall|i: int| 0 <= i < fragments(s).len() ==> newline_free(#[trigger] fragments(s)[i]),
    decreases s.len(),
{
    if s.len() > 0 {
        let p = fragments(s.drop_last());
        lemma_fragments_newline_free(s.drop_last());
        lemma_fragments_len(s.drop_last());
        assert forall|i: int| 0 <= i < fragments(s).len() implies newline_free(#[trigger] fragments(s)[i]) by {
            if i < p.len() - 1 {
                assert(fragments(s)[i] == p[i]);
            } else if s.last() != NEWLINE && i == p.len() - 1 {
                assert(newline_free(p[i]));
                assert(fragments(s)[i] == p[i].push(s.last()));
            } else if i < p.len() {
                assert(fragments(s)[i] == p[i]);
            }
        }
    }
}

proof fn lemma_non_empty_pieces(frags: Seq<Seq<u8>>)
    requires
        forall|i: int| 0 <= i < frags.len() ==> newline_free(#[trigger] frags[i]),
    ensures
        forall|i: int|
            0 <= i < non_empty(frags).len() ==> #[trigger] non_empty(frags)[i].len() > 0 && newline_free(
                non_empty(frags)[i],
            ),
    decreases frags.len(),
{
    if frags.len() > 0 {
        let p = frags.drop_last();
        assert forall|i: int| 0 <= i < p.len() implies newline_free(#[trigger] p[i]) by {
            assert(p[i] == frags[i]);
        }
        lemma_non_empty_pieces(p);
        if frags.last().len() > 0 {
            assert(newline_free(frags[frags.len() - 1]));
            assert forall|i: int| 0 <= i < non_empty(frags).len() implies #[trigger] non_empty(frags)[i].len()
                > 0 && newline_free(non_empty(frags)[i]) by {
                if i < non_empty(p).len() {
                    assert(non_empty(frags)[i] == non_empty(p)[i]);
                }
            }
        }
    }
}

/// Every alignment line decoded from an engine response is the read name
/// followed by a non-empty piece of the response that holds no line
/// terminator.
pub proof fn lemma_lines_carry_name(name: Seq<u8>, response: Seq<u8>)
    ensures
        forall|i: int|
            0 <= i < named_lines(name, response).len() ==> {
                &&& #[trigger] named_lines(name, response)[i].len() > name.len()
                &&& named_lines(name, response)[i].subrange(0, name.len() as int) == name
                &&& newline_free(
                    named_lines(name, response)[i].subrange(
                        name.len() as int,
                        named_lines(name, response)[i].len() as int,
                    ),
                )
            },
{
    let pieces = non_empty(fragments(response));
    lemma_fragments_newline_free(response);
    lemma_non_empty_pieces(fragments(response));
    assert forall|i: int| 0 <= i < named_lines(name, response).len() implies {
        &&& #[trigger] named_lines(name, response)[i].len() > name.len()
        &&& named_lines(name, response)[i].subrange(0, name.len() as int) == name
        &&& newline_free(
            named_lines(name, response)[i].subrange(
                name.len() as int,
                named_lines(name, response)[i].len() as int,
            ),
        )
    } by {
        assert(named_lines(name, response)[i] == name + pieces[i]);
        assert(newline_free(pieces[i]));
        assert((name + pieces[i]).subrange(0, name.len() as int) =~= name);
        assert((name + pieces[i]).subrange(name.len() as int, (name + pieces[i]).len() as int) =~= pieces[i]);
    }
}

/// Appends `tail` to `buf`.
fn append(buf: &mut Vec<u8>, tail: &[u8])
    ensures
        final(buf)@ == old(buf)@ + tail@,
{
    let mut i: usize = 0;
    while i < tail.len()
        invariant
            0 <= i <= tail@.len(),
            buf@ == old(buf)@ + tail@.subrange(0, i as int),
        decreases tail@.len() - i,
    {
        buf.push(tail[i]);
        proof {
            assert(tail@.subrange(0, i + 1) =~= tail@.subrange(0, i as int).push(tail@[i as int]));
            assert(buf@ =~= old(buf)@ + tail@.subrange(0, i + 1));
        }
        i = i + 1;
    }
    proof {
        assert(tail@.subrange(0, i as int) =~= tail@);
    }
}

/// Tells whether `s` holds no C string terminator.
pub fn is_nul_free(s: &[u8]) -> (r: bool)
    ensures
        r == nul_free(s@),
{
    let mut i: usize = 0;
    while i < s.len()
        invariant
            0 <= i <= s@.len(),
            forall|j: int| 0 <= j < i ==> s@[j] != NUL,
        decreases s@.len() - i,
    {
        if s[i] == NUL {
            return false;
        }
        i = i + 1;
    }
    true
}

/// Writes into `buf` the block the engine reads for `read` and `qual`.
pub fn prepare_fastq(buf: &mut Vec<u8>, read: &[u8], qual: &[u8])
    ensures
        final(buf)@ == fastq_block(read@, qual@),
{
    buf.clear();
    buf.push(0x40u8);
    buf.push(0x61u8);
    buf.push(NEWLINE);
    append(buf, read);
    buf.push(NEWLINE);
    buf.push(0x2bu8);
    buf.push(NEWLINE);
    append(buf, qual);
    buf.push(NEWLINE);
    buf.push(NUL);
    proof {
        assert(buf@ =~= fastq_block(read@, qual@));
    }
}

/// Splits an engine response into its non-empty lines and puts `name` in
/// front of each.
pub fn named_response_lines(name: &[u8], response: &[u8]) -> (r: Vec<Vec<u8>>)
    ensures
        r@.map_values(|l: Vec<u8>| l@) == named_lines(name@, response@),
{
    let mut out: Vec<Vec<u8>> = Vec::new();
    let mut cur: Vec<u8> = Vec::new();
    let ghost mut done: Seq<Seq<u8>> = Seq::empty();
    let mut i: usize = 0;
    while i < response.len()
        invariant
            0 <= i <= response@.len(),
            fragments(response@.subrange(0, i as int)) == done.push(cur@),
            out@.map_values(|l: Vec<u8>| l@) == non_empty(done).map_values(|l: Seq<u8>| name@ + l),
        decreases response@.len() - i,
    {
        let b = response[i];
        proof {
            assert(response@.subrange(0, i + 1).drop_last() =~= response@.subrange(0, i as int));
        }
        if b == NEWLINE {
            if cur.len() > 0 {
                let mut line: Vec<u8> = Vec::new();
                append(&mut line, name);
                append(&mut line, cur.as_slice());
                let ghost prev = out@;
                out.push(line);
                proof {
                    lemma_push_line(done, cur@, name@, prev, line);
                }
            } else {
                proof {
                    assert(done.push(cur@).drop_last() =~= done);
                }
            }
            proof {
                done = done.push(cur@);
            }
            cur.clear();
        } else {
            let ghost prev_cur = cur@;
            cur.push(b);
            proof {
                lemma_fragments_len(response@.subrange(0, i as int));
                assert(done.push(prev_cur).update(done.len() as int, prev_cur.push(b)) =~= done.push(cur@));
            }
        }
        i = i + 1;
    }
    proof {
        assert(response@.subrange(0, i as int) =~= response@);
        assert(done.push(cur@).drop_last() =~= done);
    }
    if cur.len() > 0 {
        let mut line: Vec<u8> = Vec::new();
        append(&mut line, name);
        append(&mut line, cur.as_slice());
        let ghost prev = out@;
        out.push(line);
        proof {
            lemma_push_line(done, cur@, name@, prev, line);
        }
    }
    out
}

} // verus!
