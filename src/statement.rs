//! Reading a bank statement: one record per line, `date, description,
//! amount, account, transaction id`, with `#` starting a comment. A line
//! without exactly five fields, or whose amount is not a decimal number, is
//! dropped.
use vstd::prelude::*;
use crate::reconcile::{StatementRecord, reconciled_deals};
use crate::store::OfferStore;

verus! {

/// The pieces of `s` between occurrences of `c` (one more piece than there
/// are occurrences).
pub open spec fn split_on(s: Seq<char>, c: char) -> Seq<Seq<char>>
    decreases s.len(),
{
    if s.len() == 0 {
        seq![Seq::<char>::empty()]
    } else {
        let rest = split_on(s.drop_last(), c);
        if s.last() == c {
            rest.push(Seq::<char>::empty())
        } else {
            rest.update(rest.len() - 1, rest.last().push(s.last()))
        }
    }
}

pub open spec fn views(v: Seq<&str>) -> Seq<Seq<char>> {
    v.map_values(|p: &str| p@)
}

/// Unicode white space, as `char::is_whitespace` has it.
pub open spec fn is_space(c: char) -> bool {
    let u = c as u32;
    (9 <= u && u <= 13) || u == 32 || u == 0x85 || u == 0xA0 || u == 0x1680 || (0x2000 <= u && u
        <= 0x200A) || u == 0x2028 || u == 0x2029 || u == 0x202F || u == 0x205F || u == 0x3000
}

/// Index of the first non-space character from `i` on, or the length.
pub open spec fn lead(s: Seq<char>, i: int) -> int
    decreases s.len() - i,
{
    if i < 0 || i >= s.len() || !is_space(s[i]) {
        i
    } else {
        lead(s, i + 1)
    }
}

/// End of `s.take(j)` once trailing spaces are cut.
pub open spec fn trail(s: Seq<char>, j: int) -> int
    decreases j,
{
    if j <= 0 || j > s.len() || !is_space(s[j - 1]) {
        j
    } else {
        trail(s, j - 1)
    }
}

/// `s` without its leading and trailing white space.
pub open spec fn trimmed(s: Seq<char>) -> Seq<char> {
    if lead(s, 0) >= s.len() {
        Seq::empty()
    } else {
        s.subrange(lead(s, 0), trail(s, s.len() as int))
    }
}

pub open spec fn is_digit(c: char) -> bool {
    48 <= (c as u32) && (c as u32) <= 57
}

/// From index `st` on, `s` is digits with at most one decimal point, and at
/// least one digit.
pub open spec fn unsigned_from(s: Seq<char>, st: int) -> bool {
    &&& 0 <= st < s.len()
    &&& forall|i: int| st <= i < s.len() ==> is_digit(#[trigger] s[i]) || s[i] == '.'
    &&& exists|i: int| st <= i < s.len() && is_digit(#[trigger] s[i])
    &&& forall|i: int, j: int| st <= i < j < s.len() && #[trigger] s[i] == '.' ==> #[trigger] s[j] != '.'
}

/// A decimal number with an optional sign.
pub open spec fn amount_text(s: Seq<char>) -> bool {
    if s.len() > 0 && (s[0] == '-' || s[0] == '+') {
        unsigned_from(s, 1)
    } else {
        unsigned_from(s, 0)
    }
}

/// The five trimmed fields of a line, when it is a well-formed record.
pub open spec fn line_fields(line: Seq<char>) -> Option<Seq<Seq<char>>> {
    let parts = split_on(split_on(line, '#')[0], ',');
    if parts.len() != 5 {
        None
    } else {
        let f = parts.map_values(|p: Seq<char>| trimmed(p));
        if amount_text(f[2]) {
            Some(f)
        } else {
            None
        }
    }
}

pub open spec fn strip_cr(l: Seq<char>) -> Seq<char> {
    if l.len() > 0 && l.last() == '\r' {
        l.drop_last()
    } else {
        l
    }
}

/// The lines of a text, as `str::lines` gives them: split at `\n`, a `\r`
/// before the `\n` cut off, no empty line after a final `\n`.
pub open spec fn lines_of(s: Seq<char>) -> Seq<Seq<char>> {
    let p = split_on(s, '\n');
    let init = p.take(p.len() - 1).map_values(|l: Seq<char>| strip_cr(l));
    if p.last().len() == 0 {
        init
    } else {
        init.push(p.last())
    }
}

/// The fields of the well-formed lines, in order.
pub open spec fn records_of(lines: Seq<Seq<char>>) -> Seq<Seq<Seq<char>>>
    decreases lines.len(),
{
    if lines.len() == 0 {
        Seq::empty()
    } else {
        let rest = records_of(lines.drop_last());
        match line_fields(lines.last()) {
            Some(f) => rest.push(f),
            None => rest,
        }
    }
}

pub open spec fn fields_of(r: StatementRecord) -> Seq<Seq<char>> {
    seq![r.date@, r.description@, r.amount@, r.account@, r.transaction_id@]
}

proof fn lemma_split_nonempty(s: Seq<char>, c: char)
    ensures
        split_on(s, c).len() >= 1,
    decreases s.len(),
{
    if s.len() > 0 {
        lemma_split_nonempty(s.drop_last(), c);
    }
}

/// The pieces of `s` between occurrences of `c`.
pub fn split_text<'a>(s: &'a str, c: char) -> (r: Vec<&'a str>)
    ensures
        views(r@) == split_on(s@, c),
{
    let n = s.unicode_len();
    let mut pieces: Vec<&'a str> = Vec::new();
    let mut start: usize = 0;
    let mut i: usize = 0;
    proof {
        assert(s@.take(0) =~= Seq::<char>::empty());
        assert(views(pieces@).push(s@.subrange(0, 0)) =~= seq![Seq::<char>::empty()]);
    }
    while i < n
        invariant
            n == s@.len(),
            0 <= start <= i <= n,
            split_on(s@.take(i as int), c) == views(pieces@).push(s@.subrange(start as int, i as int)),
        decreases n - i,
    {
        let ch = s.get_char(i);
        let ghost t1 = s@.take(i + 1);
        proof {
            assert(t1.drop_last() =~= s@.take(i as int));
            assert(t1.last() == ch);
        }
        if ch == c {
            let piece = s.substring_char(start, i);
            pieces.push(piece);
            start = i + 1;
            proof {
                assert(views(pieces@) =~= views(pieces@.drop_last()).push(piece@));
                assert(s@.subrange(start as int, i + 1) =~= Seq::<char>::empty());
            }
        } else {
            proof {
                assert(s@.subrange(start as int, i + 1) =~= s@.subrange(start as int, i as int).push(ch));
                assert(views(pieces@).push(s@.subrange(start as int, i + 1)) =~= views(pieces@).push(
                    s@.subrange(start as int, i as int),
                ).update(views(pieces@).len() as int, s@.subrange(start as int, i as int).push(ch)));
            }
        }
        i = i + 1;
    }
    let last = s.substring_char(start, n);
    pieces.push(last);
    proof {
        assert(s@.take(n as int) =~= s@);
        assert(views(pieces@) =~= views(pieces@.drop_last()).push(last@));
    }
    pieces
}

fn is_space_char(c: char) -> (r: bool)
    ensures
        r == is_space(c),
{
    let u = c as u32;
    (9 <= u && u <= 13) || u == 32 || u == 0x85 || u == 0xA0 || u == 0x1680 || (0x2000 <= u && u
        <= 0x200A) || u == 0x2028 || u == 0x2029 || u == 0x202F || u == 0x205F || u == 0x3000
}

/// `s` without its leading and trailing white space.
pub fn trim_text<'a>(s: &'a str) -> (r: &'a str)
    ensures
        r@ == trimmed(s@),
{
    let n = s.unicode_len();
    let mut i: usize = 0;
    while i < n && is_space_char(s.get_char(i))
        invariant
            n == s@.len(),
            0 <= i <= n,
            lead(s@, 0) == lead(s@, i as int),
        decreases n - i,
    {
        i = i + 1;
    }
    if i == n {
        return s.substring_char(n, n);
    }
    let mut j: usize = n;
    while j > i + 1 && is_space_char(s.get_char(j - 1))
        invariant
            n == s@.len(),
            i < j <= n,
            !is_space(s@[i as int]),
            lead(s@, 0) == i,
            trail(s@, n as int) == trail(s@, j as int),
        decreases j,
    {
        j = j - 1;
    }
    s.substring_char(i, j)
}

/// Whether `s` is a decimal number with an optional sign.
pub fn is_amount(s: &str) -> (r: bool)
    ensures
        r == amount_text(s@),
{
    let n = s.unicode_len();
    let st: usize = if n > 0 && (s.get_char(0) == '-' || s.get_char(0) == '+') {
        1
    } else {
        0
    };
    assert(amount_text(s@) == unsigned_from(s@, st as int));
    if st >= n {
        return false;
    }
    let mut i: usize = st;
    let mut seen_dot = false;
    let mut seen_digit = false;
    while i < n
        invariant
            n == s@.len(),
            amount_text(s@) == unsigned_from(s@, st as int),
            st < n,
            st <= i <= n,
            forall|k: int| st <= k < i ==> is_digit(#[trigger] s@[k]) || s@[k] == '.',
            seen_dot == exists|k: int| st <= k < i && #[trigger] s@[k] == '.',
            seen_digit == exists|k: int| st <= k < i && is_digit(#[trigger] s@[k]),
            forall|a: int, b: int| st <= a < b < i && #[trigger] s@[a] == '.' ==> #[trigger] s@[b] != '.',
        decreases n - i,
    {
        let c = s.get_char(i);
        if 48 <= (c as u32) && (c as u32) <= 57 {
            seen_digit = true;
        } else if c == '.' {
            if seen_dot {
                proof {
                    let a = choose|k: int| st <= k < i && #[trigger] s@[k] == '.';
                    assert(s@[a] == '.' && s@[i as int] == '.');
                }
                return false;
            }
            seen_dot = true;
        } else {
            assert(!(is_digit(s@[i as int]) || s@[i as int] == '.'));
            return false;
        }
        i = i + 1;
    }
    seen_digit
}

/// The record on one line, or `None` when the line is not a well-formed
/// record.
pub fn parse_line(line: &str) -> (r: Option<StatementRecord>)
    ensures
        match line_fields(line@) {
            Some(f) => r is Some && fields_of(r->Some_0) == f,
            None => r is None,
        },
{
    let cut = split_text(line, '#');
    proof {
        lemma_split_nonempty(line@, '#');
        assert(views(cut@)[0] == cut@[0]@);
    }
    let parts = split_text(cut[0], ',');
    if parts.len() != 5 {
        return None;
    }
    proof {
        assert forall|k: int| 0 <= k < 5 implies #[trigger] views(parts@)[k] == parts@[k]@ by {}
    }
    let amount = trim_text(parts[2]);
    if !is_amount(amount) {
        return None;
    }
    let date = trim_text(parts[0]);
    let description = trim_text(parts[1]);
    let account = trim_text(parts[3]);
    let transaction_id = trim_text(parts[4]);
    let r = StatementRecord {
        date: String::from_str(date),
        description: String::from_str(description),
        amount: String::from_str(amount),
        account: String::from_str(account),
        transaction_id: String::from_str(transaction_id),
    };
    proof {
        let f = split_on(split_on(line@, '#')[0], ',').map_values(|p: Seq<char>| trimmed(p));
        assert(fields_of(r) =~= f);
    }
    Some(r)
}

/// Reads a statement: one record for each well-formed line, in order.
pub fn parse_csv(body: &str) -> (r: Vec<StatementRecord>)
    ensures
        r@.len() == records_of(lines_of(body@)).len(),
        forall|i: int| 0 <= i < r@.len() ==> fields_of(#[trigger] r@[i]) == records_of(lines_of(body@))[i],
{
    let pieces = split_text(body, '\n');
    let n = pieces.len();
    proof {
        lemma_split_nonempty(body@, '\n');
    }
    let ghost lines = lines_of(body@);
    let ghost p = split_on(body@, '\n');
    let count: usize = if pieces[n - 1].unicode_len() == 0 {
        n - 1
    } else {
        n
    };
    proof {
        assert(views(pieces@)[n - 1] == pieces@[n - 1]@);
        assert(lines.len() == count);
    }
    let mut out: Vec<StatementRecord> = Vec::new();
    let mut i: usize = 0;
    while i < count
        invariant
            n == pieces@.len(),
            n >= 1,
            count <= n,
            lines.len() == count,
            lines == lines_of(body@),
            p == split_on(body@, '\n'),
            views(pieces@) == p,
            0 <= i <= count,
            out@.len() == records_of(lines.take(i as int)).len(),
            forall|k: int| 0 <= k < out@.len() ==> fields_of(#[trigger] out@[k]) == records_of(lines.take(i as int))[k],
        decreases count - i,
    {
        let piece = pieces[i];
        assert(views(pieces@)[i as int] == piece@);
        let m = piece.unicode_len();
        let line = if i + 1 < n && m > 0 && piece.get_char(m - 1) == '\r' {
            piece.substring_char(0, m - 1)
        } else {
            piece
        };
        proof {
            assert(line@ =~= lines[i as int]);
            let t1 = lines.take(i + 1);
            assert(t1.drop_last() =~= lines.take(i as int));
            assert(t1.last() == lines[i as int]);
        }
        let rec = parse_line(line);
        match rec {
            Some(rec) => {
                let ghost before = out@;
                out.push(rec);
                assert forall|k: int| 0 <= k < out@.len() implies fields_of(#[trigger] out@[k]) == records_of(lines.take(i + 1))[k] by {
                    if k < before.len() {
                        assert(out@[k] == before[k]);
                    }
                }
            },
            None => {},
        }
        i = i + 1;
    }
    assert(lines.take(count as int) =~= lines);
    out
}

/// Ingests a bank statement: reads its well-formed lines and raises the
/// flags of the deals they give evidence for.
pub fn handle_readout(store: &mut OfferStore, body: &str)
    requires
        old(store).wf(),
    ensures
        final(store).wf(),
        exists|rs: Seq<StatementRecord>|
            {
                &&& rs.len() == records_of(lines_of(body@)).len()
                &&& forall|i: int| 0 <= i < rs.len() ==> fields_of(#[trigger] rs[i]) == records_of(lines_of(body@))[i]
                &&& final(store).deals@ == reconciled_deals(old(store).offers@, old(store).deals@, rs)
            },
        final(store).offers@ == old(store).offers@,
        final(store).deposits@ == old(store).deposits@,
        final(store).next_id == old(store).next_id,
{
    let records = parse_csv(body);
    store.apply_statement(&records);
}

} // verus!
