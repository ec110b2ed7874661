//! Zeroing the `timeupdated` and `size` of chosen items in `appworkshop_<appid>.acf`, so
//! that Steam sees them as out of date and downloads them again.
use vstd::prelude::*;

use crate::text::{
    chars_eq_str, chars_of, count_leading_ws, leading_ws, lemma_leading_ws, push_chars,
    push_str, slice_chars, split_chars, split_on, string_from_chars, trim, trim_chars,
};

verus! {

/// Index of the first `c` in `s`.
pub open spec fn first_index_of(s: Seq<char>, c: char) -> Option<int>
    decreases s.len(),
{
    if s.len() == 0 {
        None
    } else if s[0] == c {
        Some(0)
    } else {
        match first_index_of(s.drop_first(), c) {
            Some(k) => Some(k + 1),
            None => None,
        }
    }
}

proof fn lemma_first_index_of_unique(s: Seq<char>, c: char, r: Option<int>)
    requires
        r matches Some(k) ==> 0 <= k < s.len() && s[k] == c && forall|j: int| 0 <= j < k ==> s[j] != c,
        r is None ==> forall|j: int| 0 <= j < s.len() ==> s[j] != c,
    ensures
        first_index_of(s, c) == r,
    decreases s.len(),
{
    if s.len() > 0 {
        if s[0] == c {
            if let Some(k) = r {
                if k > 0 {
                    assert(s[0] != c);
                }
            }
        } else {
            let r2 = match r {
                Some(k) => Some(k - 1),
                None => None,
            };
            assert forall|j: int| 0 <= j < s.drop_first().len() implies s.drop_first()[j] == s[j + 1] by {
            }
            if let Some(k) = r {
                assert(k != 0);
                assert forall|j: int| 0 <= j < k - 1 implies s.drop_first()[j] != c by {
                    assert(s.drop_first()[j] == s[j + 1]);
                }
                assert(s.drop_first()[k - 1] == s[k]);
            }
            lemma_first_index_of_unique(s.drop_first(), c, r2);
        }
    }
}

/// A line without its `\r` (of a `\r\n` ending).
pub open spec fn strip_cr(l: Seq<char>) -> Seq<char> {
    if l.len() > 0 && l.last() == '\r' {
        l.drop_last()
    } else {
        l
    }
}

/// `str::lines`: split at `\n`, dropping a `\r` just before it; a final line ending is
/// optional and an empty text has no lines.
pub open spec fn lines_of(s: Seq<char>) -> Seq<Seq<char>>
    decreases s.len(),
{
    if s.len() == 0 {
        Seq::empty()
    } else {
        match first_index_of(s, '\n') {
            Some(k) => {
                proof {
                    lemma_first_index_bound(s, '\n');
                }
                seq![strip_cr(s.take(k))] + lines_of(s.skip(k + 1))
            },
            None => seq![s],
        }
    }
}

pub proof fn lemma_first_index_bound(s: Seq<char>, c: char)
    ensures
        first_index_of(s, c) matches Some(k) ==> 0 <= k < s.len() && s[k] == c,
    decreases s.len(),
{
    if s.len() > 0 && s[0] != c {
        lemma_first_index_bound(s.drop_first(), c);
    }
}

/// Splits a text into lines as `str::lines` does.
pub fn split_lines(cs: &[char]) -> (res: Vec<Vec<char>>)
    ensures
        res@.map_values(|l: Vec<char>| l@) == lines_of(cs@),
{
    let mut res: Vec<Vec<char>> = Vec::new();
    let mut start: usize = 0;
    let mut k: usize = 0;
    assert(cs@.skip(0) =~= cs@);
    while k < cs.len()
        invariant
            start <= k <= cs.len(),
            lines_of(cs@) == res@.map_values(|l: Vec<char>| l@) + lines_of(cs@.skip(start as int)),
            forall|j: int| start <= j < k ==> cs@[j] != '\n',
        decreases cs.len() - k,
    {
        if cs[k] == '\n' {
            let ghost rest = cs@.skip(start as int);
            proof {
                lemma_first_index_of_unique(rest, '\n', Some(k - start));
            }
            let piece_end = if k > start && cs[k - 1] == '\r' {
                k - 1
            } else {
                k
            };
            let piece = slice_chars(cs, start, piece_end);
            assert(rest.take(k - start) =~= cs@.subrange(start as int, k as int));
            assert(piece@ =~= strip_cr(rest.take(k - start)));
            assert(rest.skip(k - start + 1) =~= cs@.skip(k + 1));
            let ghost old_res = res@;
            res.push(piece);
            assert(res@.map_values(|l: Vec<char>| l@) =~= old_res.map_values(|l: Vec<char>| l@).push(piece@));
            assert(lines_of(cs@) =~= res@.map_values(|l: Vec<char>| l@) + lines_of(cs@.skip(k + 1)));
            start = k + 1;
        }
        k = k + 1;
    }
    if start < cs.len() {
        let ghost rest = cs@.skip(start as int);
        proof {
            lemma_first_index_of_unique(rest, '\n', None);
        }
        let piece = slice_chars(cs, start, cs.len());
        assert(piece@ =~= rest);
        let ghost old_res = res@;
        res.push(piece);
        assert(res@.map_values(|l: Vec<char>| l@) =~= old_res.map_values(|l: Vec<char>| l@).push(piece@));
        assert(lines_of(cs@) =~= res@.map_values(|l: Vec<char>| l@));
    } else {
        assert(cs@.skip(start as int) =~= Seq::<char>::empty());
        assert(lines_of(cs@) =~= res@.map_values(|l: Vec<char>| l@));
    }
    res
}

/// Lines joined, each followed by `\n`.
pub open spec fn render_lines(ls: Seq<Seq<char>>) -> Seq<char>
    decreases ls.len(),
{
    if ls.len() == 0 {
        Seq::empty()
    } else {
        render_lines(ls.drop_last()) + ls.last() + seq!['\n']
    }
}

/// Where the scan of an ACF file stands after some lines.
pub struct AcfState {
    /// Inside a `WorkshopItemsInstalled` or `WorkshopItemDetails` block.
    pub in_block: bool,
    /// The last item id seen as a key at depth one.
    pub current: Option<Seq<char>>,
    /// Braces opened inside the block.
    pub depth: nat,
    /// The item block being read belongs to a chosen item.
    pub zero: bool,
}

/// The state before the first line.
pub open spec fn acf_start() -> AcfState {
    AcfState { in_block: false, current: None, depth: 0, zero: false }
}

/// A block header whose items the patch looks into.
pub open spec fn is_block_header(t: Seq<char>) -> bool {
    t == "\"WorkshopItemsInstalled\""@ || t == "\"WorkshopItemDetails\""@
}

/// The replacement of a `"key" "value"` line: same indentation, value `0`.
pub open spec fn zeroed_line(line: Seq<char>, key: Seq<char>) -> Seq<char> {
    line.take(leading_ws(line) as int) + "\""@ + key + "\"\t\t\"0\""@
}

/// Whether a key is one that the patch zeroes.
pub open spec fn is_zeroed_key(key: Seq<char>) -> bool {
    key == "timeupdated"@ || key == "size"@
}

/// One line of the scan: the next state and the line to write.
pub open spec fn acf_step(st: AcfState, line: Seq<char>, ids: Seq<Seq<char>>) -> (AcfState, Seq<char>) {
    let t = trim(line);
    if is_block_header(t) {
        (AcfState { in_block: true, ..st }, line)
    } else if !st.in_block {
        (st, line)
    } else if t == "{"@ {
        let d = st.depth + 1;
        let z = if d == 2 {
            match st.current {
                Some(id) => ids.contains(id),
                None => false,
            }
        } else {
            st.zero
        };
        (AcfState { depth: d, zero: z, ..st }, line)
    } else if t == "}"@ {
        let st2 = if st.depth == 1 {
            AcfState { in_block: false, current: None, zero: false, ..st }
        } else {
            st
        };
        (AcfState { depth: if st2.depth > 0 { (st2.depth - 1) as nat } else { 0 }, ..st2 }, line)
    } else {
        let parts = split_on(t, '"');
        let cur = if st.depth == 1 && t.len() > 0 && t[0] == '"' && parts.len() >= 2 {
            Some(parts[1])
        } else {
            st.current
        };
        let st2 = AcfState { current: cur, ..st };
        if st.zero && st.depth == 2 && parts.len() >= 4 && is_zeroed_key(parts[1]) {
            (st2, zeroed_line(line, parts[1]))
        } else {
            (st2, line)
        }
    }
}

/// The scan over all lines: the final state and the lines to write.
pub open spec fn acf_run(lines: Seq<Seq<char>>, ids: Seq<Seq<char>>) -> (AcfState, Seq<Seq<char>>)
    decreases lines.len(),
{
    if lines.len() == 0 {
        (acf_start(), Seq::empty())
    } else {
        let prev = acf_run(lines.drop_last(), ids);
        let step = acf_step(prev.0, lines.last(), ids);
        (step.0, prev.1.push(step.1))
    }
}

/// The patched ACF text: every line kept, followed by `\n`, except that inside the
/// item blocks of the chosen ids the `timeupdated` and `size` values become `0`.
pub open spec fn zeroed_acf(contents: Seq<char>, ids: Seq<Seq<char>>) -> Seq<char> {
    render_lines(acf_run(lines_of(contents), ids).1)
}

/// Whether `ids` holds `id`.
fn ids_contain(ids: &Vec<String>, id: &[char]) -> (res: bool)
    ensures
        res == ids@.map_values(|s: String| s@).contains(id@),
{
    let ghost iv = ids@.map_values(|s: String| s@);
    let id_s = string_from_chars(id);
    let mut i: usize = 0;
    while i < ids.len()
        invariant
            i <= ids.len(),
            iv == ids@.map_values(|s: String| s@),
            id_s@ == id@,
            forall|j: int| 0 <= j < i ==> iv[j] != id@,
        decreases ids.len() - i,
    {
        assert(iv[i as int] == ids@[i as int]@);
        if ids[i] == id_s {
            assert(iv[i as int] == id@);
            return true;
        }
        i = i + 1;
    }
    false
}

/// Rewrites the text of an `appworkshop_<appid>.acf` so that the chosen items'
/// `timeupdated` and `size` read `0`; everything else is kept line for line.
pub fn zero_acf_text(contents: &str, item_ids: &Vec<String>) -> (res: String)
    ensures
        res@ == zeroed_acf(contents@, item_ids@.map_values(|s: String| s@)),
{
    let ghost ids = item_ids@.map_values(|s: String| s@);
    let cs = chars_of(contents);
    let lines = split_lines(&cs);
    let ghost lv = lines@.map_values(|l: Vec<char>| l@);
    let mut out: Vec<char> = Vec::new();
    let mut in_block = false;
    let mut current: Option<Vec<char>> = None;
    let mut depth: usize = 0;
    let mut zero = false;
    let mut i: usize = 0;
    while i < lines.len()
        invariant
            i <= lines@.len(),
            lv == lines@.map_values(|l: Vec<char>| l@),
            lv == lines_of(contents@),
            ids == item_ids@.map_values(|s: String| s@),
            depth <= i,
            ({
                let r = acf_run(lv.take(i as int), ids);
                &&& r.0.in_block == in_block
                &&& r.0.current == (match current {
                    Some(c) => Some(c@),
                    None => None::<Seq<char>>,
                })
                &&& r.0.depth == depth
                &&& r.0.zero == zero
                &&& out@ == render_lines(r.1)
            }),
        decreases lines@.len() - i,
    {
        let ghost prefix = lv.take(i as int);
        let ghost st = acf_run(prefix, ids).0;
        let ghost outs = acf_run(prefix, ids).1;
        assert(lv.take(i + 1).drop_last() =~= prefix);
        assert(lv.take(i + 1).last() == lines@[i as int]@);
        let line = &lines[i];
        let t = trim_chars(line);
        let ghost step = acf_step(st, line@, ids);
        let mut written: Vec<char> = Vec::new();
        if chars_eq_str(&t, "\"WorkshopItemsInstalled\"") || chars_eq_str(&t, "\"WorkshopItemDetails\"") {
            in_block = true;
            push_chars(&mut written, line);
        } else if !in_block {
            push_chars(&mut written, line);
        } else if chars_eq_str(&t, "{") {
            depth = depth + 1;
            if depth == 2 {
                zero = match &current {
                    Some(id) => ids_contain(item_ids, id),
                    None => false,
                };
            }
            push_chars(&mut written, line);
        } else if chars_eq_str(&t, "}") {
            if depth == 1 {
                in_block = false;
                current = None;
                zero = false;
            }
            depth = if depth > 0 {
                depth - 1
            } else {
                0
            };
            push_chars(&mut written, line);
        } else {
            let parts = split_chars(&t, '"');
            proof {
                crate::text::lemma_split_on_len(t@, '"');
            }
            let old_depth = depth;
            if depth == 1 && t.len() > 0 && t[0] == '"' && parts.len() >= 2 {
                current = Some(slice_chars(&parts[1], 0, parts[1].len()));
                assert(current->0@ =~= parts@[1]@);
            }
            let mut replaced = false;
            if zero && old_depth == 2 && parts.len() >= 4 {
                let key = &parts[1];
                if chars_eq_str(key, "timeupdated") || chars_eq_str(key, "size") {
                    let n = count_leading_ws(line);
                    proof {
                        lemma_leading_ws(line@);
                    }
                    let ws = slice_chars(line, 0, n);
                    push_chars(&mut written, &ws);
                    push_str(&mut written, "\"");
                    push_chars(&mut written, key);
                    push_str(&mut written, "\"\t\t\"0\"");
                    assert(ws@ =~= line@.take(leading_ws(line@) as int));
                    assert(written@ =~= zeroed_line(line@, parts@[1]@));
                    replaced = true;
                }
            }
            if !replaced {
                push_chars(&mut written, line);
            }
        }
        assert(written@ =~= step.1);
        assert(step.0.in_block == in_block);
        assert(step.0.depth == depth);
        assert(step.0.zero == zero);
        assert(step.0.current == (match current {
                    Some(c) => Some(c@),
                    None => None::<Seq<char>>,
                }));
        assert(acf_run(lv.take(i + 1), ids) == (step.0, outs.push(step.1)));
        let ghost old_out = out@;
        push_chars(&mut out, &written);
        out.push('\n');
        assert(out@ =~= old_out + step.1 + seq!['\n']);
        assert(outs.push(step.1).drop_last() =~= outs);
        assert(render_lines(outs.push(step.1)) == render_lines(outs) + step.1 + seq!['\n']);
        i = i + 1;
    }
    assert(lv.take(lines@.len() as int) =~= lv);
    string_from_chars(&out)
}

} // verus!

verus! {

// ---------------------------------------------------------------------------------------
// What the patch keeps

/// The key of a `"key" "value"` line: the text between its first two quotes.
pub open spec fn line_key(line: Seq<char>) -> Seq<char> {
    split_on(trim(line), '"')[1]
}

/// The line the scan writes for line `i` is the step from the state after the lines before it.
proof fn lemma_acf_run_at(lines: Seq<Seq<char>>, ids: Seq<Seq<char>>, i: int)
    requires
        0 <= i < lines.len(),
    ensures
        acf_run(lines, ids).1.len() == lines.len(),
        acf_run(lines, ids).1[i] == acf_step(acf_run(lines.take(i), ids).0, lines[i], ids).1,
    decreases lines.len(),
{
    lemma_acf_line_count(lines, ids);
    if i == lines.len() - 1 {
        assert(lines.drop_last() =~= lines.take(i));
    } else {
        lemma_acf_run_at(lines.drop_last(), ids, i);
        assert(lines.drop_last().take(i) =~= lines.take(i));
    }
}

/// The scan writes exactly one line for each line it reads.
pub proof fn lemma_acf_line_count(lines: Seq<Seq<char>>, ids: Seq<Seq<char>>)
    ensures
        acf_run(lines, ids).1.len() == lines.len(),
    decreases lines.len(),
{
    if lines.len() > 0 {
        lemma_acf_line_count(lines.drop_last(), ids);
    }
}

/// Inside an item's block (depth two or more) the values are zeroed only for a chosen item.
pub open spec fn acf_state_ok(st: AcfState, ids: Seq<Seq<char>>) -> bool {
    st.zero && st.depth >= 2 ==> (st.current matches Some(id) && ids.contains(id))
}

proof fn lemma_acf_run_ok(lines: Seq<Seq<char>>, ids: Seq<Seq<char>>)
    ensures
        acf_state_ok(acf_run(lines, ids).0, ids),
        ids.len() == 0 ==> !acf_run(lines, ids).0.zero,
    decreases lines.len(),
{
    if lines.len() > 0 {
        lemma_acf_run_ok(lines.drop_last(), ids);
    }
}

/// Each written line is the line read, or, for a `timeupdated` or `size` line at depth
/// two inside the block of a chosen item, that line with its value zeroed. So the lines
/// of items not chosen, and every line outside the item blocks, are written unchanged.
pub proof fn lemma_acf_only_chosen_items_change(lines: Seq<Seq<char>>, ids: Seq<Seq<char>>, i: int)
    requires
        0 <= i < lines.len(),
    ensures
        acf_run(lines, ids).1.len() == lines.len(),
        acf_run(lines, ids).1[i] == lines[i] || ({
            let st = acf_run(lines.take(i), ids).0;
            &&& st.in_block
            &&& st.depth == 2
            &&& st.current matches Some(id) && ids.contains(id)
            &&& is_zeroed_key(line_key(lines[i]))
            &&& acf_run(lines, ids).1[i] == zeroed_line(lines[i], line_key(lines[i]))
        }),
{
    lemma_acf_run_at(lines, ids, i);
    lemma_acf_run_ok(lines.take(i), ids);
}

/// With no chosen items the patch writes every line as it was read.
pub proof fn lemma_acf_no_ids_no_change(lines: Seq<Seq<char>>)
    ensures
        acf_run(lines, Seq::empty()).1 == lines,
    decreases lines.len(),
{
    if lines.len() > 0 {
        lemma_acf_no_ids_no_change(lines.drop_last());
        lemma_acf_run_ok(lines.drop_last(), Seq::empty());
        assert(lines.drop_last().push(lines.last()) =~= lines);
    }
}

/// With no chosen items the patched text is the lines read, each ended by `\n`.
pub proof fn lemma_zeroed_acf_no_ids(contents: Seq<char>)
    ensures
        zeroed_acf(contents, Seq::empty()) == render_lines(lines_of(contents)),
{
    lemma_acf_no_ids_no_change(lines_of(contents));
}

} // verus!

verus! {

// ---------------------------------------------------------------------------------------
// Patching twice

proof fn lemma_split_no_sep(a: Seq<char>, sep: char)
    requires
        !a.contains(sep),
    ensures
        split_on(a, sep) == seq![a],
    decreases a.len(),
{
    if a.len() > 0 {
        assert(a[0] != sep);
        assert(!a.drop_first().contains(sep)) by {
            if a.drop_first().contains(sep) {
                let j = choose|j: int| 0 <= j < a.drop_first().len() && a.drop_first()[j] == sep;
                assert(a[j + 1] == sep);
            }
        }
        lemma_split_no_sep(a.drop_first(), sep);
        assert(seq![a[0]] + a.drop_first() =~= a);
        assert(split_on(a, sep) =~= seq![a]);
    } else {
        assert(a =~= Seq::<char>::empty());
    }
}

proof fn lemma_split_prefix(a: Seq<char>, b: Seq<char>, sep: char)
    requires
        !a.contains(sep),
    ensures
        split_on(a + seq![sep] + b, sep) == seq![a] + split_on(b, sep),
    decreases a.len(),
{
    let s = a + seq![sep] + b;
    if a.len() == 0 {
        assert(s[0] == sep);
        assert(s.drop_first() =~= b);
        assert(a =~= Seq::<char>::empty());
    } else {
        assert(s[0] == a[0]);
        assert(a[0] != sep);
        assert(!a.drop_first().contains(sep)) by {
            if a.drop_first().contains(sep) {
                let j = choose|j: int| 0 <= j < a.drop_first().len() && a.drop_first()[j] == sep;
                assert(a[j + 1] == sep);
            }
        }
        lemma_split_prefix(a.drop_first(), b, sep);
        assert(s.drop_first() =~= a.drop_first() + seq![sep] + b);
        assert(seq![a[0]] + a.drop_first() =~= a);
        assert((seq![a.drop_first()] + split_on(b, sep)).update(0, seq![a[0]] + a.drop_first()) =~= seq![a] + split_on(b, sep));
        assert(split_on(s, sep) == split_on(s.drop_first(), sep).update(0, seq![s[0]] + split_on(s.drop_first(), sep)[0]));
    }
}

proof fn lemma_split_pieces_no_sep(s: Seq<char>, sep: char)
    ensures
        forall|k: int| 0 <= k < split_on(s, sep).len() ==> !(#[trigger] split_on(s, sep)[k]).contains(sep),
    decreases s.len(),
{
    if s.len() > 0 {
        lemma_split_pieces_no_sep(s.drop_first(), sep);
        crate::text::lemma_split_on_len(s.drop_first(), sep);
        let rest = split_on(s.drop_first(), sep);
        if s[0] != sep {
            let p = seq![s[0]] + rest[0];
            assert(!p.contains(sep)) by {
                if p.contains(sep) {
                    let j = choose|j: int| 0 <= j < p.len() && p[j] == sep;
                    if j > 0 {
                        assert(rest[0][j - 1] == sep);
                    }
                }
            }
        }
    }
}

/// What a zeroed line looks like once trimmed.
proof fn lemma_zeroed_line_shape(line: Seq<char>, key: Seq<char>)
    requires
        !key.contains('"'),
    ensures
        ({
            let z = zeroed_line(line, key);
            let t = "\""@ + key + "\"\t\t\"0\""@;
            &&& trim(z) == t
            &&& !is_block_header(t)
            &&& t != "{"@
            &&& t != "}"@
            &&& split_on(t, '"').len() == 5
            &&& split_on(t, '"')[1] == key
            &&& zeroed_line(z, key) == z
        }),
{
    reveal_strlit("\"");
    reveal_strlit("\"\t\t\"0\"");
    reveal_strlit("\"WorkshopItemsInstalled\"");
    reveal_strlit("\"WorkshopItemDetails\"");
    reveal_strlit("{");
    reveal_strlit("}");
    let n = leading_ws(line);
    lemma_leading_ws(line);
    let ws = line.take(n as int);
    let t = "\""@ + key + "\"\t\t\"0\""@;
    let z = zeroed_line(line, key);
    assert(z =~= ws + t);
    assert(t[0] == '"');
    assert(t.len() == key.len() + 7);
    assert(t[t.len() - 1] == '"');
    assert(t[t.len() - 2] == '0');
    // leading white space of z is exactly ws
    assert forall|j: int| 0 <= j < n implies crate::text::is_white_space(#[trigger] z[j]) by {
        assert(z[j] == line[j]);
    }
    assert(z[n as int] == '"');
    crate::text::lemma_leading_ws_unique(z, n as int);
    assert(crate::text::trim_start(z) =~= t);
    crate::text::lemma_trailing_ws_unique(t, 0);
    assert(t.take(t.len() as int) =~= t);
    assert(z.take(n as int) =~= ws);
    assert(zeroed_line(z, key) =~= z);
    // the pieces between quotes
    let e = Seq::<char>::empty();
    assert(!e.contains('"'));
    assert(!seq!['\t', '\t'].contains('"')) by {
        if seq!['\t', '\t'].contains('"') {
            let j = choose|j: int| 0 <= j < 2 && seq!['\t', '\t'][j] == '"';
        }
    }
    assert(!seq!['0'].contains('"')) by {
        if seq!['0'].contains('"') {
            let j = choose|j: int| 0 <= j < 1 && seq!['0'][j] == '"';
        }
    }
    lemma_split_no_sep(e, '"');
    lemma_split_prefix(seq!['0'], e, '"');
    assert(seq!['0'] + seq!['"'] + e =~= seq!['0', '"']);
    lemma_split_prefix(seq!['\t', '\t'], seq!['0', '"'], '"');
    assert(seq!['\t', '\t'] + seq!['"'] + seq!['0', '"'] =~= seq!['\t', '\t', '"', '0', '"']);
    lemma_split_prefix(key, seq!['\t', '\t', '"', '0', '"'], '"');
    assert(key + seq!['"'] + seq!['\t', '\t', '"', '0', '"'] =~= key + "\"\t\t\"0\""@);
    lemma_split_prefix(e, key + "\"\t\t\"0\""@, '"');
    assert(e + seq!['"'] + (key + "\"\t\t\"0\""@) =~= t);
    if t == "\"WorkshopItemsInstalled\""@ {
        assert("\"WorkshopItemsInstalled\""@[t.len() - 2] == 'd');
    }
    if t == "\"WorkshopItemDetails\""@ {
        assert("\"WorkshopItemDetails\""@[t.len() - 2] == 's');
    }
}

/// A zeroed line read again, in the same state, is left as it is and moves the scan the
/// same way as the line it replaced.
proof fn lemma_step_zeroed(st: AcfState, line: Seq<char>, ids: Seq<Seq<char>>)
    requires
        acf_step(st, line, ids).1 != line,
    ensures
        acf_step(st, acf_step(st, line, ids).1, ids) == acf_step(st, line, ids),
{
    let t = trim(line);
    let parts = split_on(t, '"');
    lemma_split_pieces_no_sep(t, '"');
    let key = parts[1];
    lemma_zeroed_line_shape(line, key);
}

/// Patching the patched lines again changes nothing: the same lines come out and the
/// scan ends in the same state.
pub proof fn lemma_acf_patch_idempotent(lines: Seq<Seq<char>>, ids: Seq<Seq<char>>)
    ensures
        acf_run(acf_run(lines, ids).1, ids) == acf_run(lines, ids),
    decreases lines.len(),
{
    if lines.len() > 0 {
        let r = acf_run(lines.drop_last(), ids);
        let s = acf_step(r.0, lines.last(), ids);
        lemma_acf_patch_idempotent(lines.drop_last(), ids);
        let out = r.1.push(s.1);
        assert(out.drop_last() =~= r.1);
        assert(out.last() == s.1);
        if s.1 != lines.last() {
            lemma_step_zeroed(r.0, lines.last(), ids);
        }
    }
}


// ---------------------------------------------------------------------------------------
// Patching the written text again

/// A line that ends with a carriage return.
pub open spec fn ends_with_cr(l: Seq<char>) -> bool {
    l.len() > 0 && l.last() == '\r'
}

proof fn lemma_first_index_props(s: Seq<char>, c: char)
    ensures
        first_index_of(s, c) matches Some(k) ==> 0 <= k < s.len() && s[k] == c && forall|j: int| 0 <= j < k ==> s[j] != c,
        first_index_of(s, c) is None ==> forall|j: int| 0 <= j < s.len() ==> s[j] != c,
    decreases s.len(),
{
    if s.len() > 0 && s[0] != c {
        lemma_first_index_props(s.drop_first(), c);
        assert forall|j: int| 0 < j < s.len() implies s[j] == s.drop_first()[j - 1] by {}
    }
}

/// No line of a text holds a line break.
proof fn lemma_lines_no_newline(s: Seq<char>)
    ensures
        forall|i: int| 0 <= i < lines_of(s).len() ==> !(#[trigger] lines_of(s)[i]).contains('\n'),
    decreases s.len(),
{
    if s.len() > 0 {
        lemma_first_index_props(s, '\n');
        match first_index_of(s, '\n') {
            Some(k) => {
                lemma_lines_no_newline(s.skip(k + 1));
                let first = strip_cr(s.take(k));
                assert(!first.contains('\n')) by {
                    if first.contains('\n') {
                        let j = choose|j: int| 0 <= j < first.len() && first[j] == '\n';
                        assert(s[j] == '\n');
                    }
                }
                let rest = lines_of(s.skip(k + 1));
                assert(lines_of(s) == seq![first] + rest);
                assert forall|i: int| 0 <= i < lines_of(s).len() implies !(#[trigger] lines_of(s)[i]).contains('\n') by {
                    if i > 0 {
                        assert(lines_of(s)[i] == rest[i - 1]);
                    }
                }
            },
            None => {
                assert(!s.contains('\n')) by {
                    if s.contains('\n') {
                        let j = choose|j: int| 0 <= j < s.len() && s[j] == '\n';
                    }
                }
            },
        }
    }
}

/// The rendered text starts with the first line and its break.
proof fn lemma_render_front(ls: Seq<Seq<char>>)
    requires
        ls.len() > 0,
    ensures
        render_lines(ls) == ls[0] + seq!['\n'] + render_lines(ls.drop_first()),
    decreases ls.len(),
{
    if ls.len() > 1 {
        lemma_render_front(ls.drop_last());
        assert(ls.drop_last().drop_first() =~= ls.drop_first().drop_last());
        assert(ls.drop_first().last() == ls.last());
        assert(ls.drop_last()[0] == ls[0]);
    } else {
        assert(ls.drop_first() =~= Seq::<Seq<char>>::empty());
        assert(ls.drop_last() =~= Seq::<Seq<char>>::empty());
    }
}

/// Reading back rendered lines gives them again, when none holds a line break or ends
/// with a carriage return.
proof fn lemma_lines_of_render(ls: Seq<Seq<char>>)
    requires
        forall|i: int| 0 <= i < ls.len() ==> !(#[trigger] ls[i]).contains('\n') && !ends_with_cr(ls[i]),
    ensures
        lines_of(render_lines(ls)) == ls,
    decreases ls.len(),
{
    if ls.len() > 0 {
        lemma_render_front(ls);
        let l = ls[0];
        let rest = render_lines(ls.drop_first());
        let s = l + seq!['\n'] + rest;
        assert forall|i: int| 0 <= i < ls.drop_first().len() implies !(#[trigger] ls.drop_first()[i]).contains('\n')
            && !ends_with_cr(ls.drop_first()[i]) by {
            assert(ls.drop_first()[i] == ls[i + 1]);
        }
        lemma_lines_of_render(ls.drop_first());
        assert forall|j: int| 0 <= j < l.len() implies s[j] != '\n' by {
            assert(s[j] == l[j]);
            if l[j] == '\n' {
                assert(l.contains('\n'));
            }
        }
        lemma_first_index_of_unique(s, '\n', Some(l.len() as int));
        assert(s.take(l.len() as int) =~= l);
        assert(s.skip(l.len() as int + 1) =~= rest);
        assert(strip_cr(l) == l);
        assert(lines_of(s) == seq![l] + ls.drop_first());
        assert(seq![l] + ls.drop_first() =~= ls);
    } else {
        assert(render_lines(ls) =~= Seq::<char>::empty());
    }
}

proof fn lemma_seq_contains_subrange(s: Seq<char>, a: int, b: int, c: char)
    requires
        0 <= a <= b <= s.len(),
        !s.contains(c),
    ensures
        !s.subrange(a, b).contains(c),
{
    if s.subrange(a, b).contains(c) {
        let j = choose|j: int| 0 <= j < b - a && s.subrange(a, b)[j] == c;
        assert(s[a + j] == c);
    }
}

proof fn lemma_split_pieces_avoid(s: Seq<char>, sep: char, c: char)
    requires
        !s.contains(c),
    ensures
        forall|k: int| 0 <= k < split_on(s, sep).len() ==> !(#[trigger] split_on(s, sep)[k]).contains(c),
    decreases s.len(),
{
    if s.len() > 0 {
        assert(!s.drop_first().contains(c)) by {
            lemma_seq_contains_subrange(s, 1, s.len() as int, c);
        }
        lemma_split_pieces_avoid(s.drop_first(), sep, c);
        crate::text::lemma_split_on_len(s.drop_first(), sep);
        let rest = split_on(s.drop_first(), sep);
        if s[0] != sep {
            let p = seq![s[0]] + rest[0];
            assert(!p.contains(c)) by {
                if p.contains(c) {
                    let j = choose|j: int| 0 <= j < p.len() && p[j] == c;
                    if j > 0 {
                        assert(rest[0][j - 1] == c);
                    } else {
                        assert(s[0] == c);
                    }
                }
            }
        }
    }
}

/// A zeroed line of a line without a break holds no break and ends with a quote.
proof fn lemma_zeroed_line_plain(line: Seq<char>)
    requires
        !line.contains('\n'),
        split_on(trim(line), '"').len() >= 2,
    ensures
        !zeroed_line(line, line_key(line)).contains('\n'),
        !ends_with_cr(zeroed_line(line, line_key(line))),
{
    reveal_strlit("\"");
    reveal_strlit("\"\t\t\"0\"");
    let t = trim(line);
    lemma_leading_ws(line);
    let n = leading_ws(line);
    let ts = crate::text::trim_start(line);
    assert(ts =~= line.subrange(n as int, line.len() as int));
    lemma_seq_contains_subrange(line, n as int, line.len() as int, '\n');
    crate::text::lemma_trailing_ws(ts);
    assert(t =~= ts.subrange(0, t.len() as int));
    lemma_seq_contains_subrange(ts, 0, t.len() as int, '\n');
    lemma_split_pieces_avoid(t, '"', '\n');
    let key = line_key(line);
    let ws = line.take(n as int);
    lemma_seq_contains_subrange(line, 0, n as int, '\n');
    let z = zeroed_line(line, key);
    let tail = "\"\t\t\"0\""@;
    assert(z =~= ws + seq!['"'] + key + tail);
    assert(!key.contains('\n'));
    assert(!z.contains('\n')) by {
        if z.contains('\n') {
            let j = choose|j: int| 0 <= j < z.len() && z[j] == '\n';
            if j < ws.len() {
                assert(ws[j] == '\n');
            } else if j == ws.len() {
            } else if j < ws.len() + 1 + key.len() {
                assert(key[j - ws.len() - 1] == '\n');
            } else {
                assert(tail[j - ws.len() - 1 - key.len()] == '\n');
            }
        }
    }
    assert(z.last() == '"');
}

/// Patching the text that a patch wrote gives that text again, for every text none of
/// whose lines ends with a carriage return left after the line endings are taken off (on
/// such a line a second reading would drop that carriage return).
pub proof fn lemma_zeroed_acf_idempotent(contents: Seq<char>, ids: Seq<Seq<char>>)
    requires
        forall|i: int| 0 <= i < lines_of(contents).len() ==> !ends_with_cr(#[trigger] lines_of(contents)[i]),
    ensures
        zeroed_acf(zeroed_acf(contents, ids), ids) == zeroed_acf(contents, ids),
{
    let ls = lines_of(contents);
    let out = acf_run(ls, ids).1;
    lemma_lines_no_newline(contents);
    lemma_acf_line_count(ls, ids);
    assert forall|i: int| 0 <= i < out.len() implies !(#[trigger] out[i]).contains('\n') && !ends_with_cr(out[i]) by {
        lemma_acf_only_chosen_items_change(ls, ids, i);
        lemma_acf_run_at(ls, ids, i);
        assert(!ls[i].contains('\n'));
        if out[i] != ls[i] {
            assert(split_on(trim(ls[i]), '"').len() >= 4);
            lemma_zeroed_line_plain(ls[i]);
        }
    }
    lemma_lines_of_render(out);
    lemma_acf_patch_idempotent(ls, ids);
}


// ---------------------------------------------------------------------------------------
// Every chosen item is zeroed

/// Inside an item's block the zeroing flag is exactly "the item is chosen", and outside a
/// block no brace is counted.
pub open spec fn acf_zero_exact(st: AcfState, ids: Seq<Seq<char>>) -> bool {
    &&& (!st.in_block ==> st.depth == 0)
    &&& (st.in_block && st.depth >= 2 ==> (st.zero <==> (st.current matches Some(id) && ids.contains(id))))
}

proof fn lemma_acf_zero_exact(lines: Seq<Seq<char>>, ids: Seq<Seq<char>>)
    ensures
        acf_zero_exact(acf_run(lines, ids).0, ids),
    decreases lines.len(),
{
    if lines.len() > 0 {
        lemma_acf_zero_exact(lines.drop_last(), ids);
    }
}

/// Every chosen item is zeroed, wherever its id stands among `ids`: a line of the form
/// `"timeupdated" "…"` or `"size" "…"` read at depth two inside a
/// `WorkshopItemsInstalled`/`WorkshopItemDetails` block, in the block of an item whose id
/// `ids` holds, is written as that key with the value `0`.
pub proof fn lemma_acf_chosen_items_zeroed(lines: Seq<Seq<char>>, ids: Seq<Seq<char>>, i: int, id: Seq<char>)
    requires
        0 <= i < lines.len(),
        ids.contains(id),
        acf_run(lines.take(i), ids).0.in_block,
        acf_run(lines.take(i), ids).0.depth == 2,
        acf_run(lines.take(i), ids).0.current == Some(id),
        !is_block_header(trim(lines[i])),
        trim(lines[i]) != "{"@,
        trim(lines[i]) != "}"@,
        split_on(trim(lines[i]), '"').len() >= 4,
        split_on(trim(lines[i]), '"')[1] == "timeupdated"@ || split_on(trim(lines[i]), '"')[1] == "size"@,
    ensures
        acf_run(lines, ids).1.len() == lines.len(),
        acf_run(lines, ids).1[i] == zeroed_line(lines[i], split_on(trim(lines[i]), '"')[1]),
{
    lemma_acf_run_at(lines, ids, i);
    lemma_acf_zero_exact(lines.take(i), ids);
}

} // verus!
