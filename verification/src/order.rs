use vstd::prelude::*;
use vstd::string::StrSliceExecFns;

verus! {

/// Lexicographic order on character sequences.  Start timestamps are
/// zero-padded, offset-normalized ISO-8601 strings, so this order agrees
/// with chronological order on them.
pub open spec fn lex_le(a: Seq<char>, b: Seq<char>) -> bool
    decreases a.len(),
{
    if a.len() == 0 {
        true
    } else if b.len() == 0 {
        false
    } else if (a[0] as u32) < (b[0] as u32) {
        true
    } else if (b[0] as u32) < (a[0] as u32) {
        false
    } else {
        lex_le(a.skip(1), b.skip(1))
    }
}

/// Any two sequences are comparable.
pub proof fn lemma_lex_le_total(a: Seq<char>, b: Seq<char>)
    ensures
        lex_le(a, b) || lex_le(b, a),
    decreases a.len(),
{
    if a.len() != 0 && b.len() != 0 && (a[0] as u32) == (b[0] as u32) {
        lemma_lex_le_total(a.skip(1), b.skip(1));
    }
}

/// The order is transitive.
pub proof fn lemma_lex_le_trans(a: Seq<char>, b: Seq<char>, c: Seq<char>)
    requires
        lex_le(a, b),
        lex_le(b, c),
    ensures
        lex_le(a, c),
    decreases a.len(),
{
    if a.len() != 0 {
        if (a[0] as u32) == (b[0] as u32) && (b[0] as u32) == (c[0] as u32) {
            lemma_lex_le_trans(a.skip(1), b.skip(1), c.skip(1));
        }
    }
}

/// Decides `lex_le` on string slices.
pub fn str_lex_le(a: &str, b: &str) -> (r: bool)
    ensures
        r == lex_le(a@, b@),
{
    let a_len = a.unicode_len();
    let b_len = b.unicode_len();
    let mut i: usize = 0;
    proof {
        assert(a@.skip(0) =~= a@);
        assert(b@.skip(0) =~= b@);
    }
    loop
        invariant
            i <= a_len,
            i <= b_len,
            a_len == a@.len(),
            b_len == b@.len(),
            lex_le(a@, b@) == lex_le(a@.skip(i as int), b@.skip(i as int)),
        decreases a_len - i,
    {
        if i == a_len {
            return true;
        }
        if i == b_len {
            return false;
        }
        let ca = a.get_char(i);
        let cb = b.get_char(i);
        if (ca as u32) < (cb as u32) {
            return true;
        }
        if (cb as u32) < (ca as u32) {
            return false;
        }
        proof {
            assert(a@.skip(i as int).skip(1) =~= a@.skip(i as int + 1));
            assert(b@.skip(i as int).skip(1) =~= b@.skip(i as int + 1));
        }
        i = i + 1;
    }
}

/// Order on optional start timestamps: an absent timestamp sorts after
/// every present one.
pub open spec fn opt_start_le(x: Option<Seq<char>>, y: Option<Seq<char>>) -> bool {
    match y {
        Option::None => true,
        Option::Some(yy) => match x {
            Option::None => false,
            Option::Some(xx) => lex_le(xx, yy),
        },
    }
}

pub proof fn lemma_opt_start_le_total(x: Option<Seq<char>>, y: Option<Seq<char>>)
    ensures
        opt_start_le(x, y) || opt_start_le(y, x),
{
    if x is Some && y is Some {
        lemma_lex_le_total(x->Some_0, y->Some_0);
    }
}

pub proof fn lemma_opt_start_le_trans(
    x: Option<Seq<char>>,
    y: Option<Seq<char>>,
    z: Option<Seq<char>>,
)
    requires
        opt_start_le(x, y),
        opt_start_le(y, z),
    ensures
        opt_start_le(x, z),
{
    if x is Some && y is Some && z is Some {
        lemma_lex_le_trans(x->Some_0, y->Some_0, z->Some_0);
    }
}

/// The view of an optional owned timestamp.
pub open spec fn opt_text(o: Option<String>) -> Option<Seq<char>> {
    match o {
        Option::None => Option::None,
        Option::Some(s) => Option::Some(s@),
    }
}

/// Decides `opt_start_le` on optional owned timestamps.
pub fn opt_start_le_exec(x: &Option<String>, y: &Option<String>) -> (r: bool)
    ensures
        r == opt_start_le(opt_text(*x), opt_text(*y)),
{
    match y {
        Option::None => true,
        Option::Some(yy) => match x {
            Option::None => false,
            Option::Some(xx) => str_lex_le(xx.as_str(), yy.as_str()),
        },
    }
}

} // verus!
