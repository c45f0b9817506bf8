//! Initials of a comma-separated list of authors.

use vstd::prelude::*;
use crate::text::{
    append_chars, graphemes, graphemes_of, is_lower, lower_of, is_space, is_space_char, is_upper, join_with,
    joined, lower_letter, same_text, string_of, to_upper, upper_letter, upper_of, views,
};

verus! {

/// Where a string is cut into pieces.
#[derive(Clone, Copy)]
pub enum Splitter {
    /// At each occurrence of the character.
    On(char),
    /// At white space and at dots.
    Words,
}

pub open spec fn splits(sp: Splitter, c: char) -> bool {
    match sp {
        Splitter::On(x) => c == x,
        Splitter::Words => is_space_char(c) || c == '.',
    }
}

/// The pieces between the cuts, empty ones included, as `str::split` gives them.
pub open spec fn pieces(s: Seq<char>, sp: Splitter) -> Seq<Seq<char>>
    decreases s.len(),
{
    if s.len() == 0 {
        seq![Seq::empty()]
    } else {
        let p = pieces(s.drop_last(), sp);
        if splits(sp, s.last()) {
            p.push(Seq::empty())
        } else {
            p.update(p.len() - 1, p.last().push(s.last()))
        }
    }
}

/// Index of the quote that closes a nickname whose text starts at `j`, or -1:
/// inside, a backslash escapes the next character (a line break excepted).
pub open spec fn closing_quote(s: Seq<char>, j: int) -> int
    decreases s.len() - j,
{
    if j < 0 || j >= s.len() {
        -1
    } else if s[j] == '"' {
        j
    } else if s[j] == '\\' {
        if j + 1 < s.len() && s[j + 1] != '\n' {
            closing_quote(s, j + 2)
        } else {
            -1
        }
    } else {
        closing_quote(s, j + 1)
    }
}

/// `s` from `i` on, each quoted nickname replaced by one space and every other
/// quote by a space.
pub open spec fn unquoted_from(s: Seq<char>, i: int) -> Seq<char>
    decreases s.len() - i,
{
    if i < 0 || i >= s.len() {
        Seq::empty()
    } else if s[i] == '"' {
        let c = closing_quote(s, i + 1);
        if i < c < s.len() {
            seq![' '] + unquoted_from(s, c + 1)
        } else {
            seq![' '] + unquoted_from(s, i + 1)
        }
    } else {
        seq![s[i]] + unquoted_from(s, i + 1)
    }
}

/// An author holds something besides dots, dashes and white space.
pub open spec fn author_ok(a: Seq<char>) -> bool {
    exists|i: int| 0 <= i < a.len() && !(a[i] == '.' || a[i] == '-' || is_space_char(a[i]))
}

/// A barrel of a name holds something besides dots and white space.
pub open spec fn barrel_ok(b: Seq<char>) -> bool {
    exists|i: int| 0 <= i < b.len() && !(b[i] == '.' || is_space_char(b[i]))
}

/// The authors among `ps` that are not blank, in order.
pub open spec fn authors_kept(ps: Seq<Seq<char>>) -> Seq<Seq<char>>
    decreases ps.len(),
{
    if ps.len() == 0 {
        ps
    } else if author_ok(ps.last()) {
        authors_kept(ps.drop_last()).push(ps.last())
    } else {
        authors_kept(ps.drop_last())
    }
}

/// The barrels among `ps` that are not blank, in order.
pub open spec fn barrels_kept(ps: Seq<Seq<char>>) -> Seq<Seq<char>>
    decreases ps.len(),
{
    if ps.len() == 0 {
        ps
    } else if barrel_ok(ps.last()) {
        barrels_kept(ps.drop_last()).push(ps.last())
    } else {
        barrels_kept(ps.drop_last())
    }
}

/// The non-empty pieces among `ps`, in order.
pub open spec fn nonempty_kept(ps: Seq<Seq<char>>) -> Seq<Seq<char>>
    decreases ps.len(),
{
    if ps.len() == 0 {
        ps
    } else if ps.last().len() > 0 {
        nonempty_kept(ps.drop_last()).push(ps.last())
    } else {
        nonempty_kept(ps.drop_last())
    }
}

/// The words of a barrel: the non-empty pieces between white space and dots.
pub open spec fn words(b: Seq<char>) -> Seq<Seq<char>> {
    nonempty_kept(pieces(b, Splitter::Words))
}

/// Nobiliary particles (in lower case).
pub open spec fn particle(w: Seq<char>) -> bool {
    ||| w == "von"@ ||| w == "фон"@ ||| w == "van"@ ||| w == "ван"@
    ||| w == "der"@ ||| w == "дер"@ ||| w == "til"@ ||| w == "тиль"@
    ||| w == "zu"@ ||| w == "цу"@ ||| w == "af"@ ||| w == "аф"@
    ||| w == "of"@ ||| w == "из"@ ||| w == "de"@ ||| w == "де"@
    ||| w == "des"@ ||| w == "дез"@ ||| w == "del"@ ||| w == "дель"@
    ||| w == "dos"@ ||| w == "душ"@ ||| w == "дос"@ ||| w == "du"@
    ||| w == "дю"@ ||| w == "la"@ ||| w == "ла"@ ||| w == "ля"@
    ||| w == "le"@ ||| w == "ле"@ ||| w == "haut"@ ||| w == "от"@
    ||| w == "zur"@ ||| w == "ди"@
}

/// The first cluster from `k` on that starts with an upper-case letter, or `g.len()`.
pub open spec fn first_upper(g: Seq<Seq<char>>, k: int) -> int
    decreases g.len() - k,
{
    if k < 0 || k >= g.len() {
        g.len() as int
    } else if upper_letter(g[k][0]) {
        k
    } else {
        first_upper(g, k + 1)
    }
}

/// The initial of one word.
/// With an apostrophe followed by something: a lower-case letter after it marks
/// an elision (`d'artagnan` gives `D`), otherwise the part before it, the
/// apostrophe and the first cluster after it are kept (`O'Connor` gives `O'C`).
/// Else the clusters up to the first upper-case one past the first are kept
/// (`McGee` gives `McG`); else a particle, in any case, keeps its first cluster
/// as it is; else
/// the first cluster is put in upper case.
pub open spec fn initial_of(w: Seq<char>) -> Seq<char> {
    let cut = pieces(w, Splitter::On('\''));
    let g = graphemes_of(w);
    let k = first_upper(g, 1);
    if cut.len() > 1 && cut[1].len() > 0 {
        if lower_letter(cut[1][0]) && cut[0].len() > 0 {
            upper_of(graphemes_of(cut[0])[0])
        } else {
            cut[0] + seq!['\''] + graphemes_of(cut[1])[0]
        }
    } else if g.len() > 1 && k < g.len() {
        g.take(k + 1).flatten()
    } else if particle(lower_of(w)) {
        g[0]
    } else {
        upper_of(g[0])
    }
}

/// The initials of the words `ws`, one for each.
pub open spec fn word_initials(ws: Seq<Seq<char>>) -> Seq<Seq<char>>
    decreases ws.len(),
{
    if ws.len() == 0 {
        Seq::empty()
    } else {
        word_initials(ws.drop_last()).push(initial_of(ws.last()))
    }
}

/// Initials of a barrel: its words' initials joined by dots.
pub open spec fn barrel_initials(b: Seq<char>) -> Seq<char> {
    joined(word_initials(words(b)), seq!['.'])
}

/// The initials of the barrels `bs`, one for each.
pub open spec fn barrels_initials(bs: Seq<Seq<char>>) -> Seq<Seq<char>>
    decreases bs.len(),
{
    if bs.len() == 0 {
        Seq::empty()
    } else {
        barrels_initials(bs.drop_last()).push(barrel_initials(bs.last()))
    }
}

/// Initials of an author: the barrels' initials joined by dashes, then a dot.
pub open spec fn author_initials(a: Seq<char>) -> Seq<char> {
    joined(barrels_initials(barrels_kept(pieces(a, Splitter::On('-')))), seq!['-']) + seq!['.']
}

/// The initials of the authors `as_`, one for each.
pub open spec fn authors_initials(as_: Seq<Seq<char>>) -> Seq<Seq<char>>
    decreases as_.len(),
{
    if as_.len() == 0 {
        Seq::empty()
    } else {
        authors_initials(as_.drop_last()).push(author_initials(as_.last()))
    }
}

/// Initials of a comma-separated list of authors; blank authors are dropped.
pub open spec fn initials_text(authors: Seq<char>) -> Seq<char> {
    joined(
        authors_initials(authors_kept(pieces(unquoted_from(authors, 0), Splitter::On(',')))),
        seq![','],
    )
}

pub open spec fn char_views(v: Seq<Vec<char>>) -> Seq<Seq<char>> {
    v.map_values(|x: Vec<char>| x@)
}

fn splits_at(sp: Splitter, c: char) -> (r: bool)
    ensures
        r == splits(sp, c),
{
    match sp {
        Splitter::On(x) => c == x,
        Splitter::Words => is_space(c) || c == '.',
    }
}

/// Cuts `s` into pieces, as `str::split` does.
pub fn split_pieces(s: &Vec<char>, sp: Splitter) -> (r: Vec<Vec<char>>)
    ensures
        char_views(r@) == pieces(s@, sp),
{
    let mut done: Vec<Vec<char>> = Vec::new();
    let mut cur: Vec<char> = Vec::new();
    let mut i: usize = 0;
    assert(s@.take(0) =~= Seq::<char>::empty());
    assert(char_views(done@).push(cur@) =~= pieces(s@.take(0), sp));
    while i < s.len()
        invariant
            i <= s@.len(),
            pieces(s@.take(i as int), sp) == char_views(done@).push(cur@),
        decreases s.len() - i,
    {
        let c = s[i];
        assert(s@.take(i + 1).drop_last() =~= s@.take(i as int));
        assert(s@.take(i + 1).last() == c);
        let ghost before = char_views(done@).push(cur@);
        if splits_at(sp, c) {
            let piece = cur;
            done.push(piece);
            cur = Vec::new();
            assert(char_views(done@).push(cur@) =~= before.push(Seq::empty()));
        } else {
            cur.push(c);
            assert(char_views(done@).push(cur@) =~= before.update(
                before.len() - 1,
                before.last().push(c),
            ));
        }
        i = i + 1;
    }
    assert(s@.take(i as int) =~= s@);
    let last = cur;
    done.push(last);
    assert(char_views(done@) =~= pieces(s@, sp));
    done
}

fn find_closing(s: &Vec<char>, j: usize) -> (r: Option<usize>)
    ensures
        r matches Some(c) ==> c == closing_quote(s@, j as int) && j <= c < s@.len(),
        r is None ==> closing_quote(s@, j as int) == -1,
{
    let mut k = j;
    while k < s.len()
        invariant
            j <= k,
            closing_quote(s@, j as int) == closing_quote(s@, k as int),
        decreases s.len() - k,
    {
        if s[k] == '"' {
            return Some(k);
        } else if s[k] == '\\' {
            if k + 1 < s.len() && s[k + 1] != '\n' {
                k = k + 2;
            } else {
                return None;
            }
        } else {
            k = k + 1;
        }
    }
    None
}

proof fn lemma_unquoted_step(s: Seq<char>, i: int)
    requires
        0 <= i < s.len(),
    ensures
        unquoted_from(s, i) == (if s[i] == '"' {
            let c = closing_quote(s, i + 1);
            if i < c < s.len() {
                seq![' '] + unquoted_from(s, c + 1)
            } else {
                seq![' '] + unquoted_from(s, i + 1)
            }
        } else {
            seq![s[i]] + unquoted_from(s, i + 1)
        }),
{
}

/// `s` with each quoted nickname replaced by one space and every other quote by
/// a space.
pub fn unquote(s: &Vec<char>) -> (r: Vec<char>)
    ensures
        r@ == unquoted_from(s@, 0),
{
    let mut out: Vec<char> = Vec::new();
    let mut i: usize = 0;
    while i < s.len()
        invariant
            i <= s@.len(),
            out@ + unquoted_from(s@, i as int) == unquoted_from(s@, 0),
        decreases s.len() - i,
    {
        proof {
            lemma_unquoted_step(s@, i as int);
        }
        let ghost before = out@;
        if s[i] == '"' {
            out.push(' ');
            match find_closing(s, i + 1) {
                Some(c) => {
                    assert(before + (seq![' '] + unquoted_from(s@, c + 1)) =~= out@ + unquoted_from(s@, c + 1));
                    i = c + 1;
                },
                None => {
                    assert(before + (seq![' '] + unquoted_from(s@, i + 1)) =~= out@ + unquoted_from(s@, i + 1));
                    i = i + 1;
                },
            }
        } else {
            out.push(s[i]);
            assert(before + (seq![s@[i as int]] + unquoted_from(s@, i + 1)) =~= out@ + unquoted_from(s@, i + 1));
            i = i + 1;
        }
    }
    assert(out@ + unquoted_from(s@, i as int) =~= out@);
    out
}

fn first_char(s: &String) -> (c: char)
    requires
        s@.len() > 0,
    ensures
        c == s@[0],
{
    s.as_str().get_char(0)
}

proof fn lemma_graphemes_nonempty(s: Seq<char>)
    requires
        graphemes_of(s).flatten() == s,
        s.len() > 0,
    ensures
        graphemes_of(s).len() > 0,
{
    if graphemes_of(s).len() == 0 {
        assert(graphemes_of(s).flatten() =~= Seq::<char>::empty());
    }
}

fn is_particle(w: &Vec<char>) -> (r: bool)
    ensures
        r == particle(w@),
{
    same_text(w, "von") || same_text(w, "фон") || same_text(w, "van") || same_text(w, "ван")
        || same_text(w, "der") || same_text(w, "дер") || same_text(w, "til") || same_text(w, "тиль")
        || same_text(w, "zu") || same_text(w, "цу") || same_text(w, "af") || same_text(w, "аф")
        || same_text(w, "of") || same_text(w, "из") || same_text(w, "de") || same_text(w, "де")
        || same_text(w, "des") || same_text(w, "дез") || same_text(w, "del") || same_text(w, "дель")
        || same_text(w, "dos") || same_text(w, "душ") || same_text(w, "дос") || same_text(w, "du")
        || same_text(w, "дю") || same_text(w, "la") || same_text(w, "ла") || same_text(w, "ля")
        || same_text(w, "le") || same_text(w, "ле") || same_text(w, "haut") || same_text(w, "от")
        || same_text(w, "zur") || same_text(w, "ди")
}

proof fn lemma_first_upper_from(g: Seq<Seq<char>>, j: int, k: int)
    requires
        1 <= j <= k <= g.len(),
        forall|m: int| j <= m < k ==> !upper_letter(#[trigger] g[m][0]),
    ensures
        first_upper(g, j) == first_upper(g, k),
    decreases k - j,
{
    if j < k {
        lemma_first_upper_from(g, j + 1, k);
    }
}

/// The initial of one non-empty word.
pub fn initial(w: &Vec<char>) -> (r: String)
    requires
        w@.len() > 0,
    ensures
        r@ == initial_of(w@),
{
    let cut = split_pieces(w, Splitter::On('\''));
    let ghost cv = char_views(cut@);
    assert(cv.len() == cut@.len());
    assert(cut@.len() > 1 ==> cv[1] == cut@[1]@);
    if cut.len() > 1 && cut[1].len() > 0 {
        assert(cv[1] == cut@[1]@ && cv[0] == cut@[0]@);
        let c0 = string_of(&cut[0]);
        let c1 = string_of(&cut[1]);
        if is_lower(cut[1][0]) && cut[0].len() > 0 {
            let g0 = graphemes(c0.as_str());
            proof {
                lemma_graphemes_nonempty(c0@);
            }
            assert(g0@[0]@ == graphemes_of(cv[0])[0]);
            return to_upper(g0[0].as_str());
        }
        let g1 = graphemes(c1.as_str());
        proof {
            lemma_graphemes_nonempty(c1@);
        }
        assert(g1@[0]@ == graphemes_of(cv[1])[0]);
        let mut v: Vec<char> = Vec::new();
        append_chars(&mut v, &cut[0]);
        v.push('\'');
        crate::text::append_str(&mut v, g1[0].as_str());
        assert(v@ =~= initial_of(w@));
        return string_of(&v);
    }
    let ws = string_of(w);
    let g = graphemes(ws.as_str());
    let ghost gv = graphemes_of(w@);
    proof {
        lemma_graphemes_nonempty(w@);
    }
    assert(g@[0]@ == gv[0]);
    if g.len() > 1 {
        let mut acc: Vec<char> = Vec::new();
        crate::text::append_str(&mut acc, g[0].as_str());
        proof {
            gv.take(0).lemma_flatten_push(gv[0]);
            assert(gv.take(0).push(gv[0]) =~= gv.take(1));
            assert(gv.take(0).flatten() =~= Seq::<char>::empty());
        }
        let mut k: usize = 1;
        while k < g.len()
            invariant
                1 <= k <= g@.len(),
                views(g@) == gv,
                gv == graphemes_of(w@),
                !(cv.len() > 1 && cv[1].len() > 0),
                cv == pieces(w@, Splitter::On('\'')),
                gv.len() == g@.len(),
                forall|i: int| 0 <= i < gv.len() ==> #[trigger] gv[i].len() > 0,
                acc@ == gv.take(k as int).flatten(),
                forall|m: int| 1 <= m < k ==> !upper_letter(#[trigger] gv[m][0]),
            decreases g.len() - k,
        {
            assert(g@[k as int]@ == gv[k as int]);
            crate::text::append_str(&mut acc, g[k].as_str());
            proof {
                gv.take(k as int).lemma_flatten_push(gv[k as int]);
                assert(gv.take(k as int).push(gv[k as int]) =~= gv.take(k + 1));
            }
            let c = first_char(&g[k]);
            assert(c == gv[k as int][0]);
            if is_upper(c) {
                proof {
                    lemma_first_upper_from(gv, 1, k as int);
                    assert(first_upper(gv, k as int) == k);
                    assert(!(cv.len() > 1 && cv[1].len() > 0));
                    assert(acc@ == gv.take(k + 1).flatten());
                }
                return string_of(&acc);
            }
            k = k + 1;
        }
        proof {
            lemma_first_upper_from(gv, 1, k as int);
        }
    }
    let low = crate::text::chars_of(crate::text::to_lower(ws.as_str()).as_str());
    if is_particle(&low) {
        return g[0].clone();
    }
    to_upper(g[0].as_str())
}

fn is_author(a: &Vec<char>) -> (r: bool)
    ensures
        r == author_ok(a@),
{
    let mut i: usize = 0;
    while i < a.len()
        invariant
            i <= a@.len(),
            forall|k: int| 0 <= k < i ==> (a@[k] == '.' || a@[k] == '-' || is_space_char(a@[k])),
        decreases a.len() - i,
    {
        let c = a[i];
        if !(c == '.' || c == '-' || is_space(c)) {
            return true;
        }
        i = i + 1;
    }
    false
}

fn is_barrel(b: &Vec<char>) -> (r: bool)
    ensures
        r == barrel_ok(b@),
{
    let mut i: usize = 0;
    while i < b.len()
        invariant
            i <= b@.len(),
            forall|k: int| 0 <= k < i ==> (b@[k] == '.' || is_space_char(b@[k])),
        decreases b.len() - i,
    {
        let c = b[i];
        if !(c == '.' || is_space(c)) {
            return true;
        }
        i = i + 1;
    }
    false
}

fn barrel_initial(b: &Vec<char>) -> (r: String)
    ensures
        r@ == barrel_initials(b@),
{
    let ps = split_pieces(b, Splitter::Words);
    let ghost pv = char_views(ps@);
    let mut outs: Vec<String> = Vec::new();
    let mut i: usize = 0;
    while i < ps.len()
        invariant
            i <= ps@.len(),
            pv == char_views(ps@),
            views(outs@) == word_initials(nonempty_kept(pv.take(i as int))),
        decreases ps.len() - i,
    {
        assert(pv.take(i + 1).drop_last() =~= pv.take(i as int));
        assert(pv.take(i + 1).last() == ps@[i as int]@);
        if ps[i].len() > 0 {
            let w = initial(&ps[i]);
            let ghost x = nonempty_kept(pv.take(i as int));
            assert(nonempty_kept(pv.take(i + 1)) == x.push(ps@[i as int]@));
            assert(x.push(ps@[i as int]@).drop_last() =~= x);
            outs.push(w);
            assert(views(outs@) =~= word_initials(nonempty_kept(pv.take(i + 1))));
        }
        i = i + 1;
    }
    assert(pv.take(i as int) =~= pv);
    let r = join_with(&outs, ".");
    proof {
        reveal_strlit(".");
        assert("."@ =~= seq!['.']);
    }
    r
}

fn author_initial(a: &Vec<char>) -> (r: String)
    ensures
        r@ == author_initials(a@),
{
    let ps = split_pieces(a, Splitter::On('-'));
    let ghost pv = char_views(ps@);
    let mut outs: Vec<String> = Vec::new();
    let mut i: usize = 0;
    while i < ps.len()
        invariant
            i <= ps@.len(),
            pv == char_views(ps@),
            views(outs@) == barrels_initials(barrels_kept(pv.take(i as int))),
        decreases ps.len() - i,
    {
        assert(pv.take(i + 1).drop_last() =~= pv.take(i as int));
        assert(pv.take(i + 1).last() == ps@[i as int]@);
        if is_barrel(&ps[i]) {
            let w = barrel_initial(&ps[i]);
            let ghost x = barrels_kept(pv.take(i as int));
            assert(barrels_kept(pv.take(i + 1)) == x.push(ps@[i as int]@));
            assert(x.push(ps@[i as int]@).drop_last() =~= x);
            outs.push(w);
            assert(views(outs@) =~= barrels_initials(barrels_kept(pv.take(i + 1))));
        }
        i = i + 1;
    }
    assert(pv.take(i as int) =~= pv);
    let joined_barrels = join_with(&outs, "-");
    proof {
        reveal_strlit("-");
        assert("-"@ =~= seq!['-']);
    }
    let mut v = crate::text::chars_of(joined_barrels.as_str());
    v.push('.');
    string_of(&v)
}

/// Initials of a comma-separated list of full names (`"John ronald reuel
/// Tolkien"` gives `"J.R.R.T."`); quoted nicknames never count.
pub fn initials(authors: &str) -> (r: String)
    ensures
        r@ == initials_text(authors@),
{
    let u = unquote(&crate::text::chars_of(authors));
    let ps = split_pieces(&u, Splitter::On(','));
    let ghost pv = char_views(ps@);
    let mut outs: Vec<String> = Vec::new();
    let mut i: usize = 0;
    while i < ps.len()
        invariant
            i <= ps@.len(),
            pv == char_views(ps@),
            views(outs@) == authors_initials(authors_kept(pv.take(i as int))),
        decreases ps.len() - i,
    {
        assert(pv.take(i + 1).drop_last() =~= pv.take(i as int));
        assert(pv.take(i + 1).last() == ps@[i as int]@);
        if is_author(&ps[i]) {
            let w = author_initial(&ps[i]);
            let ghost x = authors_kept(pv.take(i as int));
            assert(authors_kept(pv.take(i + 1)) == x.push(ps@[i as int]@));
            assert(x.push(ps@[i as int]@).drop_last() =~= x);
            outs.push(w);
            assert(views(outs@) =~= authors_initials(authors_kept(pv.take(i + 1))));
        }
        i = i + 1;
    }
    assert(pv.take(i as int) =~= pv);
    let r = join_with(&outs, ",");
    proof {
        reveal_strlit(",");
        assert(","@ =~= seq![',']);
    }
    r
}

} // verus!
