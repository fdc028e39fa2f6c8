use vstd::prelude::*;

use crate::steam::{
    dotted_quad, host_entries, hosts_with_block, hosts_without_block, line_ending, hosts_block_begin, hosts_block_end, inside_block_after, kept_host_lines,
    steam_hosts_model,
};
use crate::text::{contains_crlf, join, lines, split_newlines, strip_cr, strip_cr_fn, lemma_split_newlines_len, trim, decimal, lemma_decimal_digits, trim_start_by, trim_end_by, whitespace_pred, is_whitespace};

verus! {

/// `s` holds no newline.
pub open spec fn no_newline(s: Seq<char>) -> bool {
    forall|i: int| 0 <= i < s.len() ==> #[trigger] s[i] != '\n'
}

/// A line ending that the hosts file is written with.
pub open spec fn is_line_ending(le: Seq<char>) -> bool {
    le == seq!['\n'] || le == seq!['\r', '\n']
}

/// A line that reads back as itself once `le` ends it: no newline in it,
/// and, with a bare newline, no carriage return at its end.
pub open spec fn reads_back(k: Seq<char>, le: Seq<char>) -> bool {
    &&& no_newline(k)
    &&& (le == seq!['\r', '\n'] || !(k.len() > 0 && k.last() == '\r'))
}

proof fn lemma_split_no_newline(s: Seq<char>)
    requires
        no_newline(s),
    ensures
        split_newlines(s) == seq![s],
    decreases s.len(),
{
    if s.len() > 0 {
        lemma_split_no_newline(s.drop_last());
        assert(s.drop_last().push(s.last()) =~= s);
        assert(seq![s.drop_last()].update(0, s.drop_last().push(s.last())) =~= seq![s]);
    } else {
        assert(s =~= Seq::<char>::empty());
    }
}

proof fn lemma_split_ends_empty(b: Seq<char>)
    requires
        b.len() == 0 || b.last() == '\n',
    ensures
        split_newlines(b).len() >= 1,
        split_newlines(b).last() == Seq::<char>::empty(),
{
    lemma_split_newlines_len(b);
}

proof fn lemma_split_concat(b: Seq<char>, s: Seq<char>)
    requires
        b.len() == 0 || b.last() == '\n',
    ensures
        split_newlines(b + s) == split_newlines(b).drop_last() + split_newlines(s),
    decreases s.len(),
{
    lemma_split_ends_empty(b);
    let d = split_newlines(b).drop_last();
    if s.len() == 0 {
        assert(b + s =~= b);
        assert(d + seq![Seq::<char>::empty()] =~= split_newlines(b));
    } else {
        let s1 = s.drop_last();
        lemma_split_concat(b, s1);
        lemma_split_newlines_len(s1);
        assert((b + s).drop_last() =~= b + s1);
        assert((b + s).last() == s.last());
        let q = split_newlines(s1);
        if s.last() == '\n' {
            assert((d + q).push(Seq::<char>::empty()) =~= d + q.push(Seq::<char>::empty()));
        } else {
            let dq = d + q;
            assert(dq.last() == q.last());
            assert(dq.update(dq.len() - 1, dq.last().push(s.last())) =~= d + q.update(
                q.len() - 1,
                q.last().push(s.last()),
            ));
        }
    }
}

/// The lines of a text that ends a line, followed by more text, are its
/// lines followed by those of the rest.
pub proof fn lemma_lines_concat(b: Seq<char>, s: Seq<char>)
    requires
        b.len() == 0 || b.last() == '\n',
    ensures
        lines(b + s) == lines(b) + lines(s),
{
    lemma_split_concat(b, s);
    lemma_split_ends_empty(b);
    lemma_split_newlines_len(s);
    let d = split_newlines(b).drop_last();
    let q = split_newlines(s);
    let p = d + q;
    assert(p.last() == q.last());
    assert(p.drop_last() =~= d + q.drop_last());
    assert(lines(b) =~= d.map_values(strip_cr_fn()));
    assert((d + q.drop_last()).map_values(strip_cr_fn()) =~= d.map_values(strip_cr_fn()) + q.drop_last().map_values(
        strip_cr_fn(),
    ));
    if q.last().len() == 0 {
        assert(lines(b + s) =~= lines(b) + lines(s));
    } else {
        assert(lines(b + s) =~= lines(b) + lines(s));
    }
}

/// A line that reads back, ended by `le`, is that one line.
pub proof fn lemma_lines_one(k: Seq<char>, le: Seq<char>)
    requires
        is_line_ending(le),
        reads_back(k, le),
    ensures
        lines(k + le) == seq![k],
{
    lemma_split_no_newline(k);
    if le == seq!['\n'] {
        let t = k + le;
        assert(t.drop_last() =~= k);
        assert(t.last() == '\n');
        assert(split_newlines(t) =~= seq![k, Seq::<char>::empty()]);
        assert(strip_cr(k) == k);
        assert(lines(t) =~= seq![k]);
    } else {
        let t = k + le;
        let kr = k.push('\r');
        assert(no_newline(kr)) by {
            assert forall|i: int| 0 <= i < kr.len() implies #[trigger] kr[i] != '\n' by {
                if i < k.len() {
                    assert(kr[i] == k[i]);
                }
            }
        }
        lemma_split_no_newline(kr);
        assert(t.drop_last() =~= kr);
        assert(t.last() == '\n');
        assert(split_newlines(t) =~= seq![kr, Seq::<char>::empty()]);
        assert(kr.drop_last() =~= k);
        assert(strip_cr(kr) == k);
        assert(lines(t) =~= seq![k]);
    }
}

/// Lines that read back, joined and ended by `le`, read back as themselves.
pub proof fn lemma_lines_of_joined(ks: Seq<Seq<char>>, le: Seq<char>)
    requires
        ks.len() > 0,
        is_line_ending(le),
        forall|i: int| 0 <= i < ks.len() ==> reads_back(#[trigger] ks[i], le),
    ensures
        lines(join(ks, le) + le) == ks,
    decreases ks.len(),
{
    if ks.len() == 1 {
        assert(join(ks, le) == ks[0]);
        lemma_lines_one(ks[0], le);
        assert(seq![ks[0]] =~= ks);
    } else {
        let k1 = ks.drop_last();
        assert forall|i: int| 0 <= i < k1.len() implies reads_back(#[trigger] k1[i], le) by {
            assert(k1[i] == ks[i]);
        }
        lemma_lines_of_joined(k1, le);
        let b = join(k1, le) + le;
        assert(b.last() == '\n');
        assert(join(ks, le) + le =~= b + (ks.last() + le));
        lemma_lines_concat(b, ks.last() + le);
        lemma_lines_one(ks.last(), le);
        assert(k1 + seq![ks.last()] =~= ks);
    }
}

proof fn lemma_split_pieces_no_newline(s: Seq<char>)
    ensures
        forall|i: int| 0 <= i < split_newlines(s).len() ==> no_newline(#[trigger] split_newlines(s)[i]),
    decreases s.len(),
{
    lemma_split_newlines_len(s);
    if s.len() > 0 {
        let s1 = s.drop_last();
        lemma_split_pieces_no_newline(s1);
        lemma_split_newlines_len(s1);
        let p = split_newlines(s1);
        if s.last() != '\n' {
            let l = p.last().push(s.last());
            assert(no_newline(p[p.len() - 1]));
            assert(no_newline(l)) by {
                assert forall|j: int| 0 <= j < l.len() implies #[trigger] l[j] != '\n' by {
                    if j < p.last().len() {
                        assert(l[j] == p[p.len() - 1][j]);
                    }
                }
            }
            assert forall|i: int| 0 <= i < split_newlines(s).len() implies no_newline(#[trigger] split_newlines(s)[i]) by {
                if i < p.len() - 1 {
                    assert(split_newlines(s)[i] == p[i]);
                }
            }
        } else {
            assert forall|i: int| 0 <= i < split_newlines(s).len() implies no_newline(#[trigger] split_newlines(s)[i]) by {
                if i < p.len() {
                    assert(split_newlines(s)[i] == p[i]);
                } else {
                    assert(split_newlines(s)[i] =~= Seq::<char>::empty());
                }
            }
        }
    }
}

/// No line of a text holds a newline.
pub proof fn lemma_lines_no_newline(s: Seq<char>)
    ensures
        forall|i: int| 0 <= i < lines(s).len() ==> no_newline(#[trigger] lines(s)[i]),
{
    lemma_split_pieces_no_newline(s);
    lemma_split_newlines_len(s);
    let p = split_newlines(s);
    assert forall|i: int| 0 <= i < lines(s).len() implies no_newline(#[trigger] lines(s)[i]) by {
        if i < p.len() - 1 {
            assert(lines(s)[i] == strip_cr(p[i]));
            assert(no_newline(p[i]));
            if p[i].len() > 0 && p[i].last() == '\r' {
                assert forall|j: int| 0 <= j < strip_cr(p[i]).len() implies #[trigger] strip_cr(p[i])[j] != '\n' by {
                    assert(strip_cr(p[i])[j] == p[i][j]);
                }
            }
        } else {
            assert(lines(s)[i] == p[p.len() - 1]);
        }
    }
}

/// A marker line of the owned block.
pub open spec fn is_marker(line: Seq<char>) -> bool {
    trim(line) == hosts_block_begin() || trim(line) == hosts_block_end()
}

/// Each kept line is one of the lines given, and none is a marker.
proof fn lemma_kept_lines_from(ls: Seq<Seq<char>>)
    ensures
        forall|i: int| 0 <= i < kept_host_lines(ls).len() ==> exists|j: int| 0 <= j < ls.len() && #[trigger] kept_host_lines(ls)[i] == ls[j],
        forall|i: int| 0 <= i < kept_host_lines(ls).len() ==> !is_marker(#[trigger] kept_host_lines(ls)[i]),
    decreases ls.len(),
{
    if ls.len() > 0 {
        let l1 = ls.drop_last();
        lemma_kept_lines_from(l1);
        let prev = kept_host_lines(l1);
        assert forall|i: int| 0 <= i < kept_host_lines(ls).len() implies exists|j: int| 0 <= j < ls.len() && #[trigger] kept_host_lines(ls)[i] == ls[j] by {
            if i < prev.len() {
                assert(kept_host_lines(ls)[i] == prev[i]);
                let j = choose|j: int| 0 <= j < l1.len() && prev[i] == l1[j];
                assert(ls[j] == l1[j]);
            } else {
                assert(kept_host_lines(ls)[i] == ls[ls.len() - 1]);
            }
        }
        assert forall|i: int| 0 <= i < kept_host_lines(ls).len() implies !is_marker(#[trigger] kept_host_lines(ls)[i]) by {
            if i < prev.len() {
                assert(kept_host_lines(ls)[i] == prev[i]);
            }
        }
    }
}

/// Lines with no marker among them are all kept, and leave no block open.
proof fn lemma_kept_without_markers(ls: Seq<Seq<char>>)
    requires
        forall|i: int| 0 <= i < ls.len() ==> !is_marker(#[trigger] ls[i]),
    ensures
        kept_host_lines(ls) == ls,
        !inside_block_after(ls),
    decreases ls.len(),
{
    if ls.len() > 0 {
        let l1 = ls.drop_last();
        assert forall|i: int| 0 <= i < l1.len() implies !is_marker(#[trigger] l1[i]) by {
            assert(l1[i] == ls[i]);
        }
        lemma_kept_without_markers(l1);
        assert(!is_marker(ls[ls.len() - 1]));
        assert(l1.push(ls.last()) =~= ls);
    }
}

/// Inside an opened block, every line up to the end marker is dropped.
proof fn lemma_kept_through_block(a: Seq<Seq<char>>, r: Seq<Seq<char>>)
    requires
        forall|i: int| 0 <= i < r.len() ==> trim(#[trigger] r[i]) != hosts_block_end(),
    ensures
        kept_host_lines(a + seq![hosts_block_begin()] + r) == kept_host_lines(a),
        inside_block_after(a + seq![hosts_block_begin()] + r),
    decreases r.len(),
{
    let ab = a + seq![hosts_block_begin()];
    if r.len() == 0 {
        assert(ab + r =~= ab);
        assert(ab.drop_last() =~= a);
        assert(trim(hosts_block_begin()) == hosts_block_begin()) by {
            reveal_strlit("# BEGIN SwagEx Steam");
        }
    } else {
        let r1 = r.drop_last();
        assert forall|i: int| 0 <= i < r1.len() implies trim(#[trigger] r1[i]) != hosts_block_end() by {
            assert(r1[i] == r[i]);
        }
        lemma_kept_through_block(a, r1);
        assert((ab + r).drop_last() =~= ab + r1);
        assert((ab + r).last() == r.last());
        assert(trim(r[r.len() - 1]) != hosts_block_end());
    }
}

/// A block opened, then closed by its end marker, drops out entirely.
pub proof fn lemma_kept_around_block(a: Seq<Seq<char>>, r: Seq<Seq<char>>)
    requires
        forall|i: int| 0 <= i < r.len() ==> trim(#[trigger] r[i]) != hosts_block_end(),
    ensures
        kept_host_lines(a + seq![hosts_block_begin()] + r + seq![hosts_block_end()]) == kept_host_lines(a),
{
    lemma_kept_through_block(a, r);
    let whole = a + seq![hosts_block_begin()] + r + seq![hosts_block_end()];
    assert(whole.drop_last() =~= a + seq![hosts_block_begin()] + r);
    assert(trim(hosts_block_end()) == hosts_block_end()) by {
        reveal_strlit("# END SwagEx Steam");
    }
}

/// The hosts line that redirects one host: its address, a space, its name.
pub open spec fn entry_line(h: (Seq<char>, Seq<u8>)) -> Seq<char> {
    dotted_quad(h.1) + seq![' '] + h.0
}

pub open spec fn entry_line_fn() -> spec_fn((Seq<char>, Seq<u8>)) -> Seq<char> {
    |h: (Seq<char>, Seq<u8>)| entry_line(h)
}

/// The redirection lines read back one by one.
proof fn lemma_lines_of_entries(hosts: Seq<(Seq<char>, Seq<u8>)>, le: Seq<char>)
    requires
        is_line_ending(le),
        forall|i: int| 0 <= i < hosts.len() ==> reads_back(entry_line(#[trigger] hosts[i]), le),
    ensures
        lines(host_entries(hosts, le)) == hosts.map_values(entry_line_fn()),
        host_entries(hosts, le).len() == 0 || host_entries(hosts, le).last() == '\n',
    decreases hosts.len(),
{
    if hosts.len() == 0 {
        assert(lines(Seq::<char>::empty()) =~= Seq::<Seq<char>>::empty()) by {
            assert(split_newlines(Seq::<char>::empty()) =~= seq![Seq::<char>::empty()]);
        }
        assert(hosts.map_values(entry_line_fn()) =~= Seq::<Seq<char>>::empty());
    } else {
        let h1 = hosts.drop_last();
        assert forall|i: int| 0 <= i < h1.len() implies reads_back(entry_line(#[trigger] h1[i]), le) by {
            assert(h1[i] == hosts[i]);
        }
        lemma_lines_of_entries(h1, le);
        let b = host_entries(h1, le);
        let e = entry_line(hosts.last());
        assert(reads_back(entry_line(hosts[hosts.len() - 1]), le));
        assert(host_entries(hosts, le) =~= b + (e + le));
        lemma_lines_concat(b, e + le);
        lemma_lines_one(e, le);
        assert(hosts.map_values(entry_line_fn()) =~= h1.map_values(entry_line_fn()) + seq![e]);
        assert((e + le).last() == '\n');
        assert(host_entries(hosts, le).last() == '\n');
    }
}

proof fn lemma_no_newline_concat(a: Seq<char>, b: Seq<char>)
    requires
        no_newline(a),
        no_newline(b),
    ensures
        no_newline(a + b),
{
    assert forall|i: int| 0 <= i < (a + b).len() implies #[trigger] (a + b)[i] != '\n' by {
        if i < a.len() {
            assert((a + b)[i] == a[i]);
        } else {
            assert((a + b)[i] == b[i - a.len()]);
        }
    }
}

proof fn lemma_decimal_no_newline(n: nat)
    ensures
        no_newline(decimal(n)),
        decimal(n).len() > 0,
        48 <= (decimal(n)[0] as u32) <= 57,
{
    lemma_decimal_digits(n);
    assert forall|i: int| 0 <= i < decimal(n).len() implies #[trigger] decimal(n)[i] != '\n' by {
        assert(48 <= (decimal(n)[i] as u32) <= 57);
    }
}

/// A redirection line for an address and a literal host name reads back,
/// and is no end marker.
proof fn lemma_entry_facts(h: (Seq<char>, Seq<u8>), le: Seq<char>)
    requires
        h.1.len() == 4,
        h.0.len() > 0,
        no_newline(h.0),
        !is_whitespace(h.0.last()),
        h.0.last() != '\r',
    ensures
        reads_back(entry_line(h), le),
        trim(entry_line(h)) != hosts_block_end(),
{
    let a = h.1;
    lemma_decimal_no_newline(a[0] as nat);
    lemma_decimal_no_newline(a[1] as nat);
    lemma_decimal_no_newline(a[2] as nat);
    lemma_decimal_no_newline(a[3] as nat);
    let dot = seq!['.'];
    assert(no_newline(dot));
    assert(no_newline(seq![' ']));
    let d0 = decimal(a[0] as nat);
    lemma_no_newline_concat(d0, dot);
    lemma_no_newline_concat(d0 + dot, decimal(a[1] as nat));
    lemma_no_newline_concat(d0 + dot + decimal(a[1] as nat), dot);
    lemma_no_newline_concat(d0 + dot + decimal(a[1] as nat) + dot, decimal(a[2] as nat));
    lemma_no_newline_concat(d0 + dot + decimal(a[1] as nat) + dot + decimal(a[2] as nat), dot);
    lemma_no_newline_concat(d0 + dot + decimal(a[1] as nat) + dot + decimal(a[2] as nat) + dot, decimal(a[3] as nat));
    let q = dotted_quad(a);
    assert(no_newline(q));
    lemma_no_newline_concat(q, seq![' ']);
    lemma_no_newline_concat(q + seq![' '], h.0);
    let e = entry_line(h);
    assert(e.last() == h.0.last());
    assert(e[0] == d0[0]);
    assert(!is_whitespace(e[0]));
    assert(trim_start_by(e, whitespace_pred()) == e);
    assert(trim_end_by(e, whitespace_pred()) == e);
    assert(trim(e) == e);
    reveal_strlit("# END SwagEx Steam");
    assert(hosts_block_end()[0] == '#');
}

/// Every redirection line of the Steam hosts reads back, and none is an end marker.
proof fn lemma_steam_entries(le: Seq<char>)
    ensures
        forall|i: int| 0 <= i < steam_hosts_model().len() ==> reads_back(entry_line(#[trigger] steam_hosts_model()[i]), le)
            && trim(entry_line(steam_hosts_model()[i])) != hosts_block_end(),
{
    let hs = steam_hosts_model();
    reveal_strlit("summonerswar-eu-lb.qpyou.cn");
    assert(no_newline("summonerswar-eu-lb.qpyou.cn"@));
    lemma_entry_facts(hs[0], le);
    reveal_strlit("summonerswar-gb-lb.qpyou.cn");
    assert(no_newline("summonerswar-gb-lb.qpyou.cn"@));
    lemma_entry_facts(hs[1], le);
    reveal_strlit("summonerswar-sea-lb.qpyou.cn");
    assert(no_newline("summonerswar-sea-lb.qpyou.cn"@));
    lemma_entry_facts(hs[2], le);
    reveal_strlit("summonerswar-jp-lb.qpyou.cn");
    assert(no_newline("summonerswar-jp-lb.qpyou.cn"@));
    lemma_entry_facts(hs[3], le);
    reveal_strlit("summonerswar-kr-lb.qpyou.cn");
    assert(no_newline("summonerswar-kr-lb.qpyou.cn"@));
    lemma_entry_facts(hs[4], le);
    reveal_strlit("summonerswar-cn-lb.qpyou.cn");
    assert(no_newline("summonerswar-cn-lb.qpyou.cn"@));
    lemma_entry_facts(hs[5], le);
}

/// Text joined from lines that end with something else than a newline does
/// not end with a newline.
proof fn lemma_join_last(ks: Seq<Seq<char>>, le: Seq<char>)
    requires
        ks.len() > 0,
        ks.last().len() > 0,
        ks.last().last() != '\n',
    ensures
        join(ks, le).len() > 0,
        join(ks, le).last() == ks.last().last(),
{
    if ks.len() > 1 {
        assert(join(ks, le) == join(ks.drop_last(), le) + le + ks.last());
    }
}

proof fn lemma_join_nonempty(ks: Seq<Seq<char>>, le: Seq<char>)
    requires
        ks.len() >= 2,
        le.len() > 0,
    ensures
        join(ks, le).len() > 0,
{
    assert(join(ks, le) == join(ks.drop_last(), le) + le + ks.last());
}

/// What precedes the owned block when it is installed: the file without
/// owned blocks, with a final line ending.
pub open spec fn block_base(contents: Seq<char>) -> Seq<char> {
    let le = line_ending(contents);
    let cl = hosts_without_block(contents);
    if cl.len() > 0 && !(le.len() <= cl.len() && cl.subrange(cl.len() - le.len(), cl.len() as int) == le) {
        cl + le
    } else {
        cl
    }
}

/// The owned block itself, markers included.
pub open spec fn owned_block(le: Seq<char>) -> Seq<char> {
    (hosts_block_begin() + le) + (host_entries(steam_hosts_model(), le) + (hosts_block_end() + le))
}

proof fn lemma_reads_back_kept(contents: Seq<char>)
    requires
        line_ending(contents) == seq!['\r', '\n'] || forall|i: int|
            0 <= i < kept_host_lines(lines(contents)).len() ==> !(#[trigger] kept_host_lines(lines(contents))[i].len() > 0
                && kept_host_lines(lines(contents))[i].last() == '\r'),
    ensures
        forall|i: int| 0 <= i < kept_host_lines(lines(contents)).len()
            ==> reads_back(#[trigger] kept_host_lines(lines(contents))[i], line_ending(contents)),
        forall|i: int| 0 <= i < kept_host_lines(lines(contents)).len() ==> !is_marker(#[trigger] kept_host_lines(lines(contents))[i]),
{
    let ks = kept_host_lines(lines(contents));
    lemma_lines_no_newline(contents);
    lemma_kept_lines_from(lines(contents));
    assert forall|i: int| 0 <= i < ks.len() implies reads_back(#[trigger] ks[i], line_ending(contents)) by {
        let w = choose|w: int| 0 <= w < lines(contents).len() && ks[i] == lines(contents)[w];
        assert(no_newline(lines(contents)[w]));
    }
}

proof fn lemma_base_lines(contents: Seq<char>)
    requires
        kept_host_lines(lines(contents)) != seq![Seq::<char>::empty()],
        !(kept_host_lines(lines(contents)).len() >= 2 && kept_host_lines(lines(contents)).last().len() == 0
            && !(contents.len() > 0 && contents.last() == '\n')),
        forall|i: int| 0 <= i < kept_host_lines(lines(contents)).len()
            ==> reads_back(#[trigger] kept_host_lines(lines(contents))[i], line_ending(contents)),
    ensures
        lines(block_base(contents)) == kept_host_lines(lines(contents)),
        block_base(contents).len() == 0 || block_base(contents).last() == '\n',
{
    let le = line_ending(contents);
    let ks = kept_host_lines(lines(contents));
    let j = join(ks, le);
    let cl = hosts_without_block(contents);
    let base = block_base(contents);
    assert(is_line_ending(le));
    if ks.len() == 0 {
        assert(j.len() == 0);
        assert(cl.len() == 0);
        assert(base.len() == 0);
        assert(lines(base) =~= Seq::<Seq<char>>::empty()) by {
            assert(split_newlines(base) =~= seq![Seq::<char>::empty()]);
        }
    } else {
        if ks.len() >= 2 {
            lemma_join_nonempty(ks, le);
        } else {
            assert(ks[0].len() > 0) by {
                if ks[0].len() == 0 {
                    assert(ks[0] =~= Seq::<char>::empty());
                    assert(ks =~= seq![Seq::<char>::empty()]);
                }
            }
            assert(j == ks[0]);
        }
        assert(j.len() > 0);
        if contents.len() > 0 && contents.last() == '\n' {
            assert(cl == j + le);
            assert(cl.subrange(cl.len() - le.len(), cl.len() as int) =~= le);
            assert(base == j + le);
        } else {
            assert(cl == j);
            assert(ks.last().len() > 0);
            assert(reads_back(ks[ks.len() - 1], le));
            assert(ks.last().last() != '\n');
            lemma_join_last(ks, le);
            if le.len() <= cl.len() {
                let tail = cl.subrange(cl.len() - le.len(), cl.len() as int);
                assert(tail.last() == cl.last());
                assert(tail != le);
            }
            assert(base == j + le);
        }
        lemma_lines_of_joined(ks, le);
        assert(base.last() == le.last());
    }
}

proof fn lemma_block_lines(le: Seq<char>)
    requires
        is_line_ending(le),
    ensures
        lines(owned_block(le)) == seq![hosts_block_begin()] + steam_hosts_model().map_values(entry_line_fn())
            + seq![hosts_block_end()],
        owned_block(le).last() == '\n',
{
    let begin = hosts_block_begin();
    let end = hosts_block_end();
    let hs = steam_hosts_model();
    let e = host_entries(hs, le);
    lemma_steam_entries(le);
    lemma_lines_of_entries(hs, le);
    reveal_strlit("# BEGIN SwagEx Steam");
    reveal_strlit("# END SwagEx Steam");
    assert(no_newline(begin));
    assert(no_newline(end));
    lemma_lines_one(begin, le);
    lemma_lines_one(end, le);
    lemma_lines_concat(e, end + le);
    assert((begin + le).last() == '\n');
    lemma_lines_concat(begin + le, e + (end + le));
    assert(lines(owned_block(le)) =~= seq![begin] + hs.map_values(entry_line_fn()) + seq![end]);
}

/// Installing the Steam redirection keeps every other line of the hosts
/// file: the lines that lie outside owned blocks are the same before and
/// after the block is installed, so removing it when the route stops leaves
/// them all. Three files are left out, where the cleaning that precedes the
/// installation drops a line: one whose only other line is blank, one that
/// does not end with a newline and whose last other line is blank, and one
/// with bare newlines where another line ends with a carriage return.
#[verifier::spinoff_prover]
pub proof fn lemma_install_keeps_other_lines(contents: Seq<char>)
    requires
        kept_host_lines(lines(contents)) != seq![Seq::<char>::empty()],
        !(kept_host_lines(lines(contents)).len() >= 2 && kept_host_lines(lines(contents)).last().len() == 0
            && !(contents.len() > 0 && contents.last() == '\n')),
        line_ending(contents) == seq!['\r', '\n'] || forall|i: int|
            0 <= i < kept_host_lines(lines(contents)).len() ==> !(#[trigger] kept_host_lines(lines(contents))[i].len() > 0
                && kept_host_lines(lines(contents))[i].last() == '\r'),
    ensures
        kept_host_lines(lines(hosts_with_block(contents))) == kept_host_lines(lines(contents)),
{
    let le = line_ending(contents);
    let ks = kept_host_lines(lines(contents));
    let base = block_base(contents);
    lemma_reads_back_kept(contents);
    lemma_base_lines(contents);
    assert(is_line_ending(le));
    lemma_block_lines(le);
    lemma_lines_concat(base, owned_block(le));
    assert(hosts_with_block(contents) =~= base + owned_block(le));
    let entries = steam_hosts_model().map_values(entry_line_fn());
    lemma_steam_entries(le);
    assert forall|i: int| 0 <= i < entries.len() implies trim(#[trigger] entries[i]) != hosts_block_end() by {
        assert(entries[i] == entry_line(steam_hosts_model()[i]));
    }
    assert(lines(hosts_with_block(contents)) =~= ks + seq![hosts_block_begin()] + entries + seq![hosts_block_end()]);
    lemma_kept_around_block(ks, entries);
    lemma_kept_without_markers(ks);
}

proof fn lemma_trim_start_drop_last(s: Seq<char>)
    requires
        s.len() > 0,
        is_whitespace(s.last()),
    ensures
        trim_start_by(s.drop_last(), whitespace_pred()) == (if trim_start_by(s, whitespace_pred()).len() == 0 {
            Seq::<char>::empty()
        } else {
            trim_start_by(s, whitespace_pred()).drop_last()
        }),
        trim_start_by(s, whitespace_pred()).len() > 0 ==> trim_start_by(s, whitespace_pred()).last() == s.last(),
    decreases s.len(),
{
    let p = whitespace_pred();
    assert(p(s.last()));
    if s.len() == 1 {
        assert(p(s[0]));
        let t = s.drop_first();
        assert(t =~= Seq::<char>::empty());
        assert(trim_start_by(t, p) == t);
        assert(trim_start_by(s, p) == trim_start_by(t, p));
        assert(s.drop_last() =~= Seq::<char>::empty());
        assert(trim_start_by(s.drop_last(), p) == s.drop_last());
    } else if p(s[0]) {
        let t = s.drop_first();
        lemma_trim_start_drop_last(t);
        assert(trim_start_by(s, p) == trim_start_by(t, p));
        let d = s.drop_last();
        assert(d[0] == s[0]);
        assert(trim_start_by(d, p) == trim_start_by(d.drop_first(), p));
        assert(d.drop_first() =~= t.drop_last());
        assert(t.last() == s.last());
    } else {
        assert(trim_start_by(s, p) == s);
        assert(s.len() >= 2);
        let d = s.drop_last();
        assert(d[0] == s[0]);
        assert(trim_start_by(d, p) == d);
    }
}

/// A carriage return at the end of a line makes no difference once trimmed.
proof fn lemma_trim_strip_cr(k: Seq<char>)
    ensures
        trim(strip_cr(k)) == trim(k),
{
    if k.len() > 0 && k.last() == '\r' {
        let p = whitespace_pred();
        assert(is_whitespace(k.last()));
        lemma_trim_start_drop_last(k);
        let ts = trim_start_by(k, p);
        if ts.len() > 0 {
            assert(p(ts.last()));
            assert(trim_end_by(ts, p) == trim_end_by(ts.drop_last(), p));
        }
    }
}

/// Each line of `lines` reads, once trimmed, as one of `ks`.
pub open spec fn trims_as_one_of(ls: Seq<Seq<char>>, ks: Seq<Seq<char>>) -> bool {
    forall|i: int| 0 <= i < ls.len() ==> #[trigger] trims_as_some(ls[i], ks)
}

/// `l` reads, once trimmed, as one of `ks`.
pub open spec fn trims_as_some(l: Seq<char>, ks: Seq<Seq<char>>) -> bool {
    exists|j: int| 0 <= j < ks.len() && trim(l) == trim(#[trigger] ks[j])
}

proof fn lemma_lines_of_piece(k: Seq<char>)
    requires
        no_newline(k),
    ensures
        lines(k) == (if k.len() == 0 { Seq::<Seq<char>>::empty() } else { seq![k] }),
{
    lemma_split_no_newline(k);
    if k.len() == 0 {
        assert(lines(k) =~= Seq::<Seq<char>>::empty());
    } else {
        assert(lines(k) =~= seq![k]);
    }
}

proof fn lemma_lines_of_ended_piece(k: Seq<char>, le: Seq<char>)
    requires
        no_newline(k),
        is_line_ending(le),
    ensures
        lines(k + le) == seq![if le == seq!['\n'] { strip_cr(k) } else { k }],
{
    lemma_split_no_newline(k);
    if le == seq!['\n'] {
        let t = k + le;
        assert(t.drop_last() =~= k);
        assert(split_newlines(t) =~= seq![k, Seq::<char>::empty()]);
        assert(lines(t) =~= seq![strip_cr(k)]);
    } else {
        let kr = k.push('\r');
        assert(no_newline(kr)) by {
            assert forall|i: int| 0 <= i < kr.len() implies #[trigger] kr[i] != '\n' by {
                if i < k.len() {
                    assert(kr[i] == k[i]);
                }
            }
        }
        lemma_split_no_newline(kr);
        let t = k + le;
        assert(t.drop_last() =~= kr);
        assert(split_newlines(t) =~= seq![kr, Seq::<char>::empty()]);
        assert(kr.drop_last() =~= k);
        assert(lines(t) =~= seq![k]);
    }
}

proof fn lemma_trims_widen(ls: Seq<Seq<char>>, k1: Seq<Seq<char>>, ks: Seq<Seq<char>>)
    requires
        trims_as_one_of(ls, k1),
        k1.len() <= ks.len(),
        forall|j: int| 0 <= j < k1.len() ==> k1[j] == ks[j],
    ensures
        trims_as_one_of(ls, ks),
{
    assert forall|i: int| 0 <= i < ls.len() implies #[trigger] trims_as_some(ls[i], ks) by {
        assert(trims_as_some(ls[i], k1));
        let j = choose|j: int| 0 <= j < k1.len() && trim(ls[i]) == trim(#[trigger] k1[j]);
        assert(k1[j] == ks[j]);
    }
}

proof fn lemma_trims_concat(a: Seq<Seq<char>>, b: Seq<Seq<char>>, ks: Seq<Seq<char>>)
    requires
        trims_as_one_of(a, ks),
        trims_as_one_of(b, ks),
    ensures
        trims_as_one_of(a + b, ks),
{
    assert forall|i: int| 0 <= i < (a + b).len() implies #[trigger] trims_as_some((a + b)[i], ks) by {
        if i < a.len() {
            assert((a + b)[i] == a[i]);
            assert(trims_as_some(a[i], ks));
        } else {
            assert((a + b)[i] == b[i - a.len()]);
            assert(trims_as_some(b[i - a.len()], ks));
        }
    }
}

/// The lines of lines joined by `le`, ended by `le` or not, each trim as one
/// of the lines joined.
proof fn lemma_joined_lines_trim(ks: Seq<Seq<char>>, le: Seq<char>)
    requires
        ks.len() > 0,
        is_line_ending(le),
        forall|i: int| 0 <= i < ks.len() ==> no_newline(#[trigger] ks[i]),
    ensures
        trims_as_one_of(lines(join(ks, le)), ks),
        trims_as_one_of(lines(join(ks, le) + le), ks),
    decreases ks.len(),
{
    let k = ks.last();
    assert(no_newline(ks[ks.len() - 1]));
    lemma_lines_of_piece(k);
    lemma_lines_of_ended_piece(k, le);
    lemma_trim_strip_cr(k);
    let single = lines(k);
    let ended = lines(k + le);
    assert(trims_as_some(k, ks)) by {
        assert(trim(k) == trim(ks[ks.len() - 1]));
    }
    assert(trims_as_one_of(single, ks)) by {
        assert forall|i: int| 0 <= i < single.len() implies #[trigger] trims_as_some(single[i], ks) by {
            assert(single[i] == k);
        }
    }
    assert(trims_as_one_of(ended, ks)) by {
        assert forall|i: int| 0 <= i < ended.len() implies #[trigger] trims_as_some(ended[i], ks) by {
            assert(trim(ended[i]) == trim(k));
            assert(trim(k) == trim(ks[ks.len() - 1]));
        }
    }
    if ks.len() == 1 {
        assert(join(ks, le) == k);
    } else {
        let k1 = ks.drop_last();
        assert forall|i: int| 0 <= i < k1.len() implies no_newline(#[trigger] k1[i]) by {
            assert(k1[i] == ks[i]);
        }
        lemma_joined_lines_trim(k1, le);
        let b = join(k1, le) + le;
        assert(b.last() == '\n');
        lemma_trims_widen(lines(b), k1, ks);
        assert(join(ks, le) =~= b + k);
        lemma_lines_concat(b, k);
        lemma_trims_concat(lines(b), single, ks);
        assert(join(ks, le) + le =~= b + (k + le));
        lemma_lines_concat(b, k + le);
        lemma_trims_concat(lines(b), ended, ks);
    }
}

/// Removing the owned blocks leaves no line of one: once the route stops,
/// no marker of SwagEx is left in the hosts file, whatever it held.
pub proof fn lemma_removal_leaves_no_marker(contents: Seq<char>)
    ensures
        forall|i: int| 0 <= i < lines(hosts_without_block(contents)).len()
            ==> !is_marker(#[trigger] lines(hosts_without_block(contents))[i]),
{
    let le = line_ending(contents);
    let ks = kept_host_lines(lines(contents));
    let cl = hosts_without_block(contents);
    assert(is_line_ending(le));
    lemma_lines_no_newline(contents);
    lemma_kept_lines_from(lines(contents));
    assert forall|i: int| 0 <= i < ks.len() implies no_newline(#[trigger] ks[i]) by {
        let w = choose|w: int| 0 <= w < lines(contents).len() && ks[i] == lines(contents)[w];
        assert(no_newline(lines(contents)[w]));
    }
    if ks.len() == 0 {
        assert(join(ks, le).len() == 0);
        assert(cl.len() == 0);
        assert(lines(cl) =~= Seq::<Seq<char>>::empty()) by {
            assert(split_newlines(cl) =~= seq![Seq::<char>::empty()]);
        }
    } else {
        lemma_joined_lines_trim(ks, le);
        let ls = lines(cl);
        assert(trims_as_one_of(ls, ks));
        assert forall|i: int| 0 <= i < ls.len() implies !is_marker(#[trigger] ls[i]) by {
            assert(trims_as_some(ls[i], ks));
            let j = choose|j: int| 0 <= j < ks.len() && trim(ls[i]) == trim(#[trigger] ks[j]);
            assert(!is_marker(ks[j]));
        }
    }
}

/// Installing the redirection replaces any earlier owned block: the file
/// then holds the lines that preceded the block, none of them a marker, and a
/// single owned block at its end, with one line per Steam host.
pub proof fn lemma_install_appends_one_block(contents: Seq<char>)
    ensures
        lines(hosts_with_block(contents)) == lines(block_base(contents)) + seq![hosts_block_begin()]
            + steam_hosts_model().map_values(entry_line_fn()) + seq![hosts_block_end()],
        forall|i: int| 0 <= i < lines(block_base(contents)).len()
            ==> !is_marker(#[trigger] lines(block_base(contents))[i]),
{
    let le = line_ending(contents);
    let ks = kept_host_lines(lines(contents));
    let cl = hosts_without_block(contents);
    let base = block_base(contents);
    assert(is_line_ending(le));
    assert(base.len() == 0 || base.last() == '\n') by {
        if base.len() > 0 {
            if cl.len() > 0 && !(le.len() <= cl.len() && cl.subrange(cl.len() - le.len(), cl.len() as int) == le) {
                assert(base.last() == le.last());
            } else {
                assert(base == cl);
                let tail = cl.subrange(cl.len() - le.len(), cl.len() as int);
                assert(tail.last() == cl.last());
            }
        }
    }
    lemma_block_lines(le);
    lemma_lines_concat(base, owned_block(le));
    assert(hosts_with_block(contents) =~= base + owned_block(le));
    assert(lines(hosts_with_block(contents)) =~= lines(base) + seq![hosts_block_begin()]
        + steam_hosts_model().map_values(entry_line_fn()) + seq![hosts_block_end()]);
    lemma_lines_no_newline(contents);
    lemma_kept_lines_from(lines(contents));
    assert forall|i: int| 0 <= i < ks.len() implies no_newline(#[trigger] ks[i]) by {
        let w = choose|w: int| 0 <= w < lines(contents).len() && ks[i] == lines(contents)[w];
        assert(no_newline(lines(contents)[w]));
    }
    let ls = lines(base);
    if ks.len() == 0 {
        assert(join(ks, le).len() == 0);
        assert(cl.len() == 0);
        assert(base.len() == 0);
        assert(ls =~= Seq::<Seq<char>>::empty()) by {
            assert(split_newlines(base) =~= seq![Seq::<char>::empty()]);
        }
    } else {
        lemma_joined_lines_trim(ks, le);
        let j = join(ks, le);
        assert(base == j || base == j + le) by {
            if contents.len() > 0 && contents.last() == '\n' && j.len() > 0 {
                assert(cl == j + le);
                if cl.len() > 0 && !(le.len() <= cl.len() && cl.subrange(cl.len() - le.len(), cl.len() as int) == le) {
                    assert(cl.subrange(cl.len() - le.len(), cl.len() as int) =~= le);
                }
            } else {
                assert(cl == j);
            }
        }
        assert(trims_as_one_of(ls, ks));
        assert forall|i: int| 0 <= i < ls.len() implies !is_marker(#[trigger] ls[i]) by {
            assert(trims_as_some(ls[i], ks));
            let w = choose|w: int| 0 <= w < ks.len() && trim(ls[i]) == trim(#[trigger] ks[w]);
            assert(!is_marker(ks[w]));
        }
    }
}

/// `s` holds no carriage return.
pub open spec fn no_cr(s: Seq<char>) -> bool {
    forall|i: int| 0 <= i < s.len() ==> #[trigger] s[i] != '\r'
}

/// `s` holds no carriage return followed by a newline.
pub open spec fn no_crlf(s: Seq<char>) -> bool {
    forall|i: int| 0 <= i < s.len() - 1 ==> !(#[trigger] s[i] == '\r' && s[i + 1] == '\n')
}

proof fn lemma_no_cr_concat(a: Seq<char>, b: Seq<char>)
    requires
        no_cr(a),
        no_cr(b),
    ensures
        no_cr(a + b),
{
    assert forall|i: int| 0 <= i < (a + b).len() implies #[trigger] (a + b)[i] != '\r' by {
        if i < a.len() {
            assert((a + b)[i] == a[i]);
        } else {
            assert((a + b)[i] == b[i - a.len()]);
        }
    }
}

proof fn lemma_no_crlf_concat(a: Seq<char>, b: Seq<char>)
    requires
        no_crlf(a),
        no_crlf(b),
        !(a.len() > 0 && b.len() > 0 && a.last() == '\r' && b[0] == '\n'),
    ensures
        no_crlf(a + b),
{
    let c = a + b;
    assert forall|i: int| 0 <= i < c.len() - 1 implies !(#[trigger] c[i] == '\r' && c[i + 1] == '\n') by {
        if i + 1 < a.len() {
            assert(c[i] == a[i] && c[i + 1] == a[i + 1]);
        } else if i >= a.len() {
            assert(c[i] == b[i - a.len()] && c[i + 1] == b[i + 1 - a.len()]);
        } else {
            assert(c[i] == a[a.len() - 1] && c[i + 1] == b[0]);
        }
    }
}

proof fn lemma_no_cr_no_crlf(s: Seq<char>)
    requires
        no_cr(s),
    ensures
        no_crlf(s),
{
}

proof fn lemma_no_crlf_not_contains(s: Seq<char>)
    requires
        no_crlf(s),
    ensures
        !contains_crlf(s),
{
}

proof fn lemma_decimal_no_cr(n: nat)
    ensures
        no_cr(decimal(n)),
{
    lemma_decimal_digits(n);
    assert forall|i: int| 0 <= i < decimal(n).len() implies #[trigger] decimal(n)[i] != '\r' by {
        assert(48 <= (decimal(n)[i] as u32) <= 57);
    }
}

proof fn lemma_entry_no_cr(h: (Seq<char>, Seq<u8>))
    requires
        h.1.len() == 4,
        no_cr(h.0),
    ensures
        no_cr(entry_line(h)),
{
    let a = h.1;
    lemma_decimal_no_cr(a[0] as nat);
    lemma_decimal_no_cr(a[1] as nat);
    lemma_decimal_no_cr(a[2] as nat);
    lemma_decimal_no_cr(a[3] as nat);
    let dot = seq!['.'];
    assert(no_cr(dot));
    assert(no_cr(seq![' ']));
    let d0 = decimal(a[0] as nat);
    lemma_no_cr_concat(d0, dot);
    lemma_no_cr_concat(d0 + dot, decimal(a[1] as nat));
    lemma_no_cr_concat(d0 + dot + decimal(a[1] as nat), dot);
    lemma_no_cr_concat(d0 + dot + decimal(a[1] as nat) + dot, decimal(a[2] as nat));
    lemma_no_cr_concat(d0 + dot + decimal(a[1] as nat) + dot + decimal(a[2] as nat), dot);
    lemma_no_cr_concat(d0 + dot + decimal(a[1] as nat) + dot + decimal(a[2] as nat) + dot, decimal(a[3] as nat));
    let q = dotted_quad(a);
    assert(no_cr(q));
    lemma_no_cr_concat(q, seq![' ']);
    lemma_no_cr_concat(q + seq![' '], h.0);
}

proof fn lemma_entries_no_cr(hosts: Seq<(Seq<char>, Seq<u8>)>, le: Seq<char>)
    requires
        no_cr(le),
        forall|i: int| 0 <= i < hosts.len() ==> no_cr(entry_line(#[trigger] hosts[i])),
    ensures
        no_cr(host_entries(hosts, le)),
    decreases hosts.len(),
{
    if hosts.len() > 0 {
        let h1 = hosts.drop_last();
        assert forall|i: int| 0 <= i < h1.len() implies no_cr(entry_line(#[trigger] h1[i])) by {
            assert(h1[i] == hosts[i]);
        }
        lemma_entries_no_cr(h1, le);
        let e = entry_line(hosts.last());
        assert(no_cr(entry_line(hosts[hosts.len() - 1])));
        assert(host_entries(hosts, le) =~= host_entries(h1, le) + (e + le));
        lemma_no_cr_concat(e, le);
        lemma_no_cr_concat(host_entries(h1, le), e + le);
    }
}

/// The owned block written with bare newlines holds no carriage return.
proof fn lemma_block_no_cr()
    ensures
        no_cr(owned_block(seq!['\n'])),
{
    let le = seq!['\n'];
    let hs = steam_hosts_model();
    assert(no_cr(le));
    reveal_strlit("summonerswar-eu-lb.qpyou.cn");
    assert(no_cr("summonerswar-eu-lb.qpyou.cn"@));
    lemma_entry_no_cr(hs[0]);
    reveal_strlit("summonerswar-gb-lb.qpyou.cn");
    assert(no_cr("summonerswar-gb-lb.qpyou.cn"@));
    lemma_entry_no_cr(hs[1]);
    reveal_strlit("summonerswar-sea-lb.qpyou.cn");
    assert(no_cr("summonerswar-sea-lb.qpyou.cn"@));
    lemma_entry_no_cr(hs[2]);
    reveal_strlit("summonerswar-jp-lb.qpyou.cn");
    assert(no_cr("summonerswar-jp-lb.qpyou.cn"@));
    lemma_entry_no_cr(hs[3]);
    reveal_strlit("summonerswar-kr-lb.qpyou.cn");
    assert(no_cr("summonerswar-kr-lb.qpyou.cn"@));
    lemma_entry_no_cr(hs[4]);
    reveal_strlit("summonerswar-cn-lb.qpyou.cn");
    assert(no_cr("summonerswar-cn-lb.qpyou.cn"@));
    lemma_entry_no_cr(hs[5]);
    assert forall|i: int| 0 <= i < hs.len() implies no_cr(entry_line(#[trigger] hs[i])) by {
        assert(i == 0 || i == 1 || i == 2 || i == 3 || i == 4 || i == 5);
    }
    lemma_entries_no_cr(hs, le);
    reveal_strlit("# BEGIN SwagEx Steam");
    reveal_strlit("# END SwagEx Steam");
    assert(no_cr(hosts_block_begin()));
    assert(no_cr(hosts_block_end()));
    let e = host_entries(hs, le);
    lemma_no_cr_concat(hosts_block_begin(), le);
    lemma_no_cr_concat(hosts_block_end(), le);
    lemma_no_cr_concat(e, hosts_block_end() + le);
    lemma_no_cr_concat(hosts_block_begin() + le, e + (hosts_block_end() + le));
}

/// A line that ends with a carriage return.
pub open spec fn ends_with_cr(k: Seq<char>) -> bool {
    k.len() > 0 && k.last() == '\r'
}

proof fn lemma_no_crlf_line(k: Seq<char>)
    requires
        no_newline(k),
        !ends_with_cr(k),
    ensures
        no_crlf(k + seq!['\n']),
{
    let t = k + seq!['\n'];
    assert forall|i: int| 0 <= i < t.len() - 1 implies !(#[trigger] t[i] == '\r' && t[i + 1] == '\n') by {
        if i + 1 < k.len() {
            assert(t[i + 1] == k[i + 1]);
        } else {
            assert(t[i] == k[k.len() - 1]);
        }
    }
}

/// Lines with no newline and no final carriage return, joined and ended by
/// bare newlines, hold no carriage return followed by a newline.
proof fn lemma_no_crlf_joined(ks: Seq<Seq<char>>)
    requires
        ks.len() > 0,
        forall|i: int| 0 <= i < ks.len() ==> no_newline(#[trigger] ks[i]) && !ends_with_cr(ks[i]),
    ensures
        no_crlf(join(ks, seq!['\n']) + seq!['\n']),
    decreases ks.len(),
{
    let le = seq!['\n'];
    let k = ks.last();
    assert(no_newline(ks[ks.len() - 1]) && !ends_with_cr(ks[ks.len() - 1]));
    lemma_no_crlf_line(k);
    if ks.len() == 1 {
        assert(join(ks, le) == k);
    } else {
        let k1 = ks.drop_last();
        assert forall|i: int| 0 <= i < k1.len() implies no_newline(#[trigger] k1[i]) && !ends_with_cr(k1[i]) by {
            assert(k1[i] == ks[i]);
        }
        lemma_no_crlf_joined(k1);
        let b = join(k1, le) + le;
        assert(join(ks, le) + le =~= b + (k + le));
        lemma_no_crlf_concat(b, k + le);
    }
}

/// `contents` ends with a newline.
pub open spec fn ends_with_newline(contents: Seq<char>) -> bool {
    contents.len() > 0 && contents.last() == '\n'
}

proof fn lemma_kept_no_newline(contents: Seq<char>)
    ensures
        forall|i: int| 0 <= i < kept_host_lines(lines(contents)).len()
            ==> no_newline(#[trigger] kept_host_lines(lines(contents))[i]),
        forall|i: int| 0 <= i < kept_host_lines(lines(contents)).len()
            ==> !is_marker(#[trigger] kept_host_lines(lines(contents))[i]),
{
    let ks = kept_host_lines(lines(contents));
    lemma_lines_no_newline(contents);
    lemma_kept_lines_from(lines(contents));
    assert forall|i: int| 0 <= i < ks.len() implies no_newline(#[trigger] ks[i]) by {
        let w = choose|w: int| 0 <= w < lines(contents).len() && ks[i] == lines(contents)[w];
        assert(no_newline(lines(contents)[w]));
    }
}

/// What precedes the installed block, in terms of the lines kept.
proof fn lemma_base_shape(contents: Seq<char>)
    ensures
        ({
            let ks = kept_host_lines(lines(contents));
            let le = line_ending(contents);
            if ks.len() == 0 || ks == seq![Seq::<char>::empty()] {
                block_base(contents) == Seq::<char>::empty()
            } else if ks.len() >= 2 && ks.last().len() == 0 && !ends_with_newline(contents) {
                block_base(contents) == join(ks.drop_last(), le) + le
            } else {
                block_base(contents) == join(ks, le) + le
            }
        }),
{
    let ks = kept_host_lines(lines(contents));
    let le = line_ending(contents);
    let j = join(ks, le);
    let cl = hosts_without_block(contents);
    let base = block_base(contents);
    lemma_kept_no_newline(contents);
    if ks.len() == 0 {
        assert(j.len() == 0);
    } else if ks == seq![Seq::<char>::empty()] {
        assert(j == ks[0]);
        assert(j.len() == 0);
    } else {
        if ks.len() >= 2 {
            lemma_join_nonempty(ks, le);
        } else {
            assert(ks[0].len() > 0) by {
                if ks[0].len() == 0 {
                    assert(ks[0] =~= Seq::<char>::empty());
                    assert(ks =~= seq![Seq::<char>::empty()]);
                }
            }
            assert(j == ks[0]);
        }
        assert(j.len() > 0);
        if ends_with_newline(contents) {
            assert(cl == j + le);
            assert(cl.subrange(cl.len() - le.len(), cl.len() as int) =~= le);
            assert(base == j + le);
        } else if ks.len() >= 2 && ks.last().len() == 0 {
            let k1 = ks.drop_last();
            assert(j == join(k1, le) + le + ks.last());
            assert(ks.last() =~= Seq::<char>::empty());
            assert(j =~= join(k1, le) + le);
            assert(cl == j);
            assert(cl.subrange(cl.len() - le.len(), cl.len() as int) =~= le);
            assert(base == cl);
        } else {
            assert(cl == j);
            assert(ks.last().len() > 0);
            assert(no_newline(ks[ks.len() - 1]));
            assert(ks.last().last() != '\n');
            lemma_join_last(ks, le);
            if le.len() <= cl.len() {
                let tail = cl.subrange(cl.len() - le.len(), cl.len() as int);
                assert(tail.last() == cl.last());
                assert(tail != le);
            }
            assert(base == j + le);
        }
    }
}

/// The installed file is what preceded the block, then the block; removing
/// owned blocks from it keeps exactly the lines that preceded the block.
proof fn lemma_installed_kept(contents: Seq<char>)
    ensures
        hosts_with_block(contents) == block_base(contents) + owned_block(line_ending(contents)),
        owned_block(line_ending(contents)).last() == '\n',
        kept_host_lines(lines(hosts_with_block(contents))) == lines(block_base(contents)),
{
    let le = line_ending(contents);
    assert(is_line_ending(le));
    lemma_install_appends_one_block(contents);
    lemma_block_lines(le);
    assert(hosts_with_block(contents) =~= block_base(contents) + owned_block(le));
    let entries = steam_hosts_model().map_values(entry_line_fn());
    lemma_steam_entries(le);
    assert forall|i: int| 0 <= i < entries.len() implies trim(#[trigger] entries[i]) != hosts_block_end() by {
        assert(entries[i] == entry_line(steam_hosts_model()[i]));
    }
    lemma_kept_around_block(lines(block_base(contents)), entries);
    lemma_kept_without_markers(lines(block_base(contents)));
}

/// With CR LF line endings, the installed block holds a CR LF.
proof fn lemma_block_has_crlf(base: Seq<char>)
    ensures
        contains_crlf(base + owned_block(seq!['\r', '\n'])),
{
    let le = seq!['\r', '\n'];
    let ob = owned_block(le);
    let w = base + ob;
    let b = hosts_block_begin();
    let n: int = b.len() as int;
    let i: int = base.len() + n;
    assert(ob[n] == '\r');
    assert(ob[n + 1] == '\n');
    assert(w[i] == ob[n]);
    assert(w[i + 1] == ob[n + 1]);
}

/// A kept line that ends with a carriage return in a file with bare newlines.
pub open spec fn has_stray_cr(contents: Seq<char>) -> bool {
    &&& line_ending(contents) == seq!['\n']
    &&& exists|i: int| 0 <= i < kept_host_lines(lines(contents)).len() && ends_with_cr(
        #[trigger] kept_host_lines(lines(contents))[i],
    )
}

/// The files on which removing the installed block does not give back what
/// preceded it: a kept line ends with a stray carriage return in a file with
/// bare newlines (except a single such line of more than that character,
/// with no newline after it), or the only other lines are two blank ones
/// with no newline after the last.
pub open spec fn restore_changes(contents: Seq<char>) -> bool {
    let ks = kept_host_lines(lines(contents));
    ||| has_stray_cr(contents) && !(ks.len() == 1 && ks[0].len() >= 2 && !ends_with_newline(contents))
    ||| ks == seq![Seq::<char>::empty(), Seq::<char>::empty()] && !ends_with_newline(contents)
}

/// Removing the redirection when the route stops gives back the hosts file
/// as it stood before the block was installed: its lines outside owned
/// blocks, with its line ending, ending with a line ending. The files left
/// out are those of `restore_changes`, on which a blank line or a stray
/// carriage return does not survive the round trip.
pub proof fn lemma_remove_after_install(contents: Seq<char>)
    requires
        !restore_changes(contents),
    ensures
        hosts_without_block(hosts_with_block(contents)) == block_base(contents),
{
    let ks = kept_host_lines(lines(contents));
    let le = line_ending(contents);
    let base = block_base(contents);
    let w = hosts_with_block(contents);
    let lew = line_ending(w);
    let crlf = seq!['\r', '\n'];
    let lf = seq!['\n'];
    lemma_installed_kept(contents);
    lemma_base_shape(contents);
    lemma_kept_no_newline(contents);
    assert(w.len() > 0 && w.last() == '\n');
    if ks.len() == 0 || ks == seq![Seq::<char>::empty()] {
        assert(lines(base) =~= Seq::<Seq<char>>::empty()) by {
            assert(split_newlines(base) =~= seq![Seq::<char>::empty()]);
        }
        assert(join(lines(base), lew).len() == 0);
    } else if has_stray_cr(contents) {
        assert(ks.len() == 1 && ks[0].len() >= 2 && !ends_with_newline(contents));
        let k = ks[0];
        let i = choose|i: int| 0 <= i < ks.len() && ends_with_cr(#[trigger] ks[i]);
        assert(i == 0);
        assert(join(ks, le) == k);
        assert(le == lf);
        let k0 = k.drop_last();
        assert(base =~= k0 + crlf);
        assert(no_newline(k0)) by {
            assert(no_newline(ks[0]));
            assert forall|j: int| 0 <= j < k0.len() implies #[trigger] k0[j] != '\n' by {
                assert(k0[j] == k[j]);
            }
        }
        lemma_lines_one(k0, crlf);
        assert(contains_crlf(w)) by {
            let p = k0.len() as int;
            assert(w[p] == base[p]);
            assert(w[p + 1] == base[p + 1]);
        }
        assert(lew == crlf);
        assert(join(seq![k0], crlf) == k0);
    } else {
        let case2 = ks.len() >= 2 && ks.last().len() == 0 && !ends_with_newline(contents);
        let kx = if case2 { ks.drop_last() } else { ks };
        assert(base == join(kx, le) + le);
        assert(kx.len() > 0);
        assert forall|j: int| 0 <= j < kx.len() implies reads_back(#[trigger] kx[j], le) by {
            assert(kx[j] == ks[j]);
            assert(no_newline(ks[j]));
            if le == lf {
                assert(!ends_with_cr(ks[j]));
            }
        }
        assert(is_line_ending(le));
        lemma_lines_of_joined(kx, le);
        if le == crlf {
            lemma_block_has_crlf(base);
        } else {
            assert forall|j: int| 0 <= j < kx.len() implies no_newline(#[trigger] kx[j]) && !ends_with_cr(kx[j]) by {
                assert(reads_back(kx[j], le));
            }
            lemma_no_crlf_joined(kx);
            lemma_block_no_cr();
            lemma_no_cr_no_crlf(owned_block(lf));
            lemma_no_crlf_concat(base, owned_block(lf));
            lemma_no_crlf_not_contains(w);
        }
        assert(lew == le);
        assert(kx != seq![Seq::<char>::empty()]) by {
            if case2 && kx == seq![Seq::<char>::empty()] {
                assert(ks.len() == 2);
                assert(ks[0] == kx[0]);
                assert(ks[1] =~= Seq::<char>::empty());
                assert(ks =~= seq![Seq::<char>::empty(), Seq::<char>::empty()]);
            }
        }
        if kx.len() >= 2 {
            lemma_join_nonempty(kx, le);
        } else {
            assert(kx[0].len() > 0) by {
                if kx[0].len() == 0 {
                    assert(kx[0] =~= Seq::<char>::empty());
                    assert(kx =~= seq![Seq::<char>::empty()]);
                }
            }
        }
    }
}

proof fn lemma_crlf_in_prefix(a: Seq<char>, b: Seq<char>)
    requires
        contains_crlf(a),
    ensures
        contains_crlf(a + b),
{
    let i = choose|i: int| 0 <= i < a.len() - 1 && #[trigger] a[i] == '\r' && a[i + 1] == '\n';
    assert((a + b)[i] == a[i] && (a + b)[i + 1] == a[i + 1]);
}

/// A line that ends with a carriage return, followed by a newline, makes a
/// CR LF in the joined text.
proof fn lemma_crlf_from_stray(ks: Seq<Seq<char>>, i: int)
    requires
        0 <= i < ks.len(),
        ends_with_cr(ks[i]),
    ensures
        contains_crlf(join(ks, seq!['\n']) + seq!['\n']),
    decreases ks.len(),
{
    let lf = seq!['\n'];
    let k = ks.last();
    if i == ks.len() - 1 {
        let t = k + lf;
        let p: int = k.len() - 1;
        assert(t[p] == '\r' && t[p + 1] == '\n');
        assert(contains_crlf(t));
        if ks.len() == 1 {
            assert(join(ks, lf) + lf == t);
        } else {
            let b = join(ks.drop_last(), lf) + lf;
            assert(join(ks, lf) + lf =~= b + t);
            let q: int = b.len() + p;
            assert((b + t)[q] == t[p] && (b + t)[q + 1] == t[p + 1]);
        }
    } else {
        let k1 = ks.drop_last();
        assert(k1[i] == ks[i]);
        lemma_crlf_from_stray(k1, i);
        let b = join(k1, lf) + lf;
        assert(join(ks, lf) + lf =~= b + (k + lf));
        lemma_crlf_in_prefix(b, k + lf);
    }
}

/// A hosts file that holds no owned block and ends with a line ending (or is
/// empty), as the removal leaves every file, comes back exactly as it was
/// once the redirection is installed and then removed.
pub proof fn lemma_restore_gives_back_file(contents: Seq<char>)
    requires
        hosts_without_block(contents) == contents,
        contents.len() == 0 || ends_with_newline(contents),
    ensures
        hosts_without_block(hosts_with_block(contents)) == contents,
{
    let ks = kept_host_lines(lines(contents));
    let le = line_ending(contents);
    let j = join(ks, le);
    lemma_base_shape(contents);
    lemma_kept_no_newline(contents);
    if contents.len() == 0 {
        assert(lines(contents) =~= Seq::<Seq<char>>::empty()) by {
            assert(split_newlines(contents) =~= seq![Seq::<char>::empty()]);
        }
        assert(ks.len() == 0);
    } else {
        assert(j.len() > 0);
        assert(contents == j + le);
        assert(ks.len() > 0 && ks != seq![Seq::<char>::empty()]) by {
            if ks.len() == 0 {
                assert(j.len() == 0);
            } else if ks == seq![Seq::<char>::empty()] {
                assert(j == ks[0]);
            }
        }
        assert(!has_stray_cr(contents)) by {
            if has_stray_cr(contents) {
                let i = choose|i: int| 0 <= i < ks.len() && ends_with_cr(#[trigger] ks[i]);
                lemma_crlf_from_stray(ks, i);
            }
        }
    }
    lemma_remove_after_install(contents);
}

/// A hosts file written with one line ending, which ends every line, where
/// no line is an owned block's marker and at least one line is not blank,
/// comes back exactly as it was once the redirection is installed and then
/// removed: the redirection is gone and every other line is kept.
pub proof fn lemma_round_trip_of_hosts_file(ks: Seq<Seq<char>>, le: Seq<char>)
    requires
        is_line_ending(le),
        forall|i: int| 0 <= i < ks.len() ==> reads_back(#[trigger] ks[i], le) && !is_marker(ks[i]),
        exists|i: int| 0 <= i < ks.len() && (#[trigger] ks[i]).len() > 0,
    ensures
        hosts_without_block(hosts_with_block(join(ks, le) + le)) == join(ks, le) + le,
{
    let h = join(ks, le) + le;
    let crlf = seq!['\r', '\n'];
    let lf = seq!['\n'];
    let i0 = choose|i: int| 0 <= i < ks.len() && (#[trigger] ks[i]).len() > 0;
    lemma_lines_of_joined(ks, le);
    lemma_kept_without_markers(ks);
    assert(kept_host_lines(lines(h)) == ks);
    if le == crlf {
        let p: int = h.len() - 2;
        assert(h[p] == '\r' && h[p + 1] == '\n');
        assert(contains_crlf(h));
    } else {
        assert forall|j: int| 0 <= j < ks.len() implies no_newline(#[trigger] ks[j]) && !ends_with_cr(ks[j]) by {
            assert(reads_back(ks[j], le));
        }
        lemma_no_crlf_joined(ks);
        lemma_no_crlf_not_contains(h);
    }
    assert(line_ending(h) == le);
    assert(join(ks, le).len() > 0) by {
        if ks.len() >= 2 {
            lemma_join_nonempty(ks, le);
        } else {
            assert(i0 == 0);
        }
    }
    assert(h.last() == '\n');
    assert(hosts_without_block(h) == h);
    lemma_restore_gives_back_file(h);
}

} // verus!
