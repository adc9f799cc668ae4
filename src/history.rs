//! Naming of the files that hold saved conversations, and the choice of the
//! current one.
use vstd::prelude::*;

verus! {

/// A local date and time, to the second.
pub struct Timestamp {
    pub year: u32,
    pub month: u32,
    pub day: u32,
    pub hour: u32,
    pub minute: u32,
    pub second: u32,
}

impl Timestamp {
    /// The fields are in their ranges (a leap second is allowed).
    pub open spec fn wf(&self) -> bool {
        &&& self.year <= 9999
        &&& 1 <= self.month <= 12
        &&& 1 <= self.day <= 31
        &&& self.hour <= 23
        &&& self.minute <= 59
        &&& self.second <= 60
    }
}

pub open spec fn digit_char(d: nat) -> char {
    if d == 0 { '0' }
    else if d == 1 { '1' }
    else if d == 2 { '2' }
    else if d == 3 { '3' }
    else if d == 4 { '4' }
    else if d == 5 { '5' }
    else if d == 6 { '6' }
    else if d == 7 { '7' }
    else if d == 8 { '8' }
    else { '9' }
}

/// The last `width` decimal digits of `n`, padded with zeros.
pub open spec fn digits(n: nat, width: nat) -> Seq<char>
    decreases width,
{
    if width == 0 {
        Seq::empty()
    } else {
        digits(n / 10, (width - 1) as nat).push(digit_char(n % 10))
    }
}

/// The file name of a conversation saved at `t`: `YYYYMMDDhhmmss.json`.
pub open spec fn history_name(t: Timestamp) -> Seq<char> {
    digits(t.year as nat, 4) + digits(t.month as nat, 2) + digits(t.day as nat, 2)
        + digits(t.hour as nat, 2) + digits(t.minute as nat, 2) + digits(t.second as nat, 2)
        + ".json"@
}

fn digit_str(d: u32) -> (r: &'static str)
    requires
        d < 10,
    ensures
        r@ == seq![digit_char(d as nat)],
{
    proof {
        reveal_strlit("0");
        reveal_strlit("1");
        reveal_strlit("2");
        reveal_strlit("3");
        reveal_strlit("4");
        reveal_strlit("5");
        reveal_strlit("6");
        reveal_strlit("7");
        reveal_strlit("8");
        reveal_strlit("9");
    }
    if d == 0 { "0" }
    else if d == 1 { "1" }
    else if d == 2 { "2" }
    else if d == 3 { "3" }
    else if d == 4 { "4" }
    else if d == 5 { "5" }
    else if d == 6 { "6" }
    else if d == 7 { "7" }
    else if d == 8 { "8" }
    else { "9" }
}

fn push_digits(s: &mut String, n: u32, width: u32)
    ensures
        final(s)@ == old(s)@ + digits(n as nat, width as nat),
    decreases width,
{
    if width == 0 {
        assert(old(s)@ + Seq::empty() =~= old(s)@);
        return;
    }
    push_digits(s, n / 10, width - 1);
    s.append(digit_str(n % 10));
    proof {
        assert((n / 10) as nat == (n as nat) / 10);
        assert(old(s)@ + digits((n as nat) / 10, (width - 1) as nat) + seq![digit_char((n % 10) as nat)]
            =~= old(s)@ + digits(n as nat, width as nat));
    }
}

/// The file name of a conversation saved at `t`.
pub fn history_file_name(t: &Timestamp) -> (r: String)
    requires
        t.wf(),
    ensures
        r@ == history_name(*t),
{
    let mut s = String::new();
    push_digits(&mut s, t.year, 4);
    push_digits(&mut s, t.month, 2);
    push_digits(&mut s, t.day, 2);
    push_digits(&mut s, t.hour, 2);
    push_digits(&mut s, t.minute, 2);
    push_digits(&mut s, t.second, 2);
    s.append(".json");
    proof {
        assert(s@ =~= history_name(*t));
    }
    s
}

/// The path of a new conversation file in `dir`, named after `t`.
pub fn new_history_path(dir: &str, t: &Timestamp) -> (r: String)
    requires
        t.wf(),
    ensures
        r@ == dir@ + "/"@ + history_name(*t),
{
    let mut p = String::from_str(dir);
    p.append("/");
    let name = history_file_name(t);
    p.append(name.as_str());
    p
}

/// The path that a conversation saved at `t` is written to: each save makes
/// a new file.
pub fn save_history(dir: &str, t: &Timestamp) -> (r: String)
    requires
        t.wf(),
    ensures
        r@ == dir@ + "/"@ + history_name(*t),
{
    new_history_path(dir, t)
}

/// Strict lexicographic order on texts, by code point (which is also the
/// order of their UTF-8 bytes).
pub open spec fn text_less(a: Seq<char>, b: Seq<char>) -> bool
    decreases a.len(),
{
    if a.len() == 0 {
        b.len() > 0
    } else if b.len() == 0 {
        false
    } else if a[0] != b[0] {
        (a[0] as u32) < (b[0] as u32)
    } else {
        text_less(a.drop_first(), b.drop_first())
    }
}

proof fn lemma_text_less_trans(a: Seq<char>, b: Seq<char>, c: Seq<char>)
    requires
        text_less(a, b),
        text_less(b, c),
    ensures
        text_less(a, c),
    decreases a.len(),
{
    if a.len() > 0 && b.len() > 0 && c.len() > 0 && a[0] == b[0] && b[0] == c[0] {
        lemma_text_less_trans(a.drop_first(), b.drop_first(), c.drop_first());
    }
}

proof fn lemma_text_less_irrefl(a: Seq<char>)
    ensures
        !text_less(a, a),
    decreases a.len(),
{
    if a.len() > 0 {
        lemma_text_less_irrefl(a.drop_first());
    }
}

fn text_less_exec(a: &str, b: &str) -> (r: bool)
    ensures
        r == text_less(a@, b@),
{
    let n = a.unicode_len();
    let m = b.unicode_len();
    let mut i: usize = 0;
    proof {
        assert(a@.subrange(0, n as int) =~= a@);
        assert(b@.subrange(0, m as int) =~= b@);
    }
    while i < n && i < m
        invariant
            n == a@.len(),
            m == b@.len(),
            0 <= i <= n,
            i <= m,
            text_less(a@, b@) == text_less(a@.subrange(i as int, n as int), b@.subrange(i as int, m as int)),
        decreases n - i,
    {
        let x = a.get_char(i);
        let y = b.get_char(i);
        if x != y {
            return (x as u32) < (y as u32);
        }
        proof {
            assert(a@.subrange(i as int, n as int).drop_first() =~= a@.subrange(i + 1, n as int));
            assert(b@.subrange(i as int, m as int).drop_first() =~= b@.subrange(i + 1, m as int));
        }
        i = i + 1;
    }
    i == n && i < m
}

/// The current conversation file: the greatest of `files` by name, which
/// for names made by `history_file_name` is the latest; `fresh` when there
/// is none.
pub fn current_history_path(files: Vec<String>, fresh: String) -> (r: String)
    ensures
        files@.len() == 0 ==> r == fresh,
        files@.len() > 0 ==> files@.contains(r),
        forall|i: int| 0 <= i < files@.len() ==> !text_less(r@, #[trigger] files@[i]@),
{
    if files.len() == 0 {
        return fresh;
    }
    let mut best: usize = 0;
    let mut i: usize = 1;
    proof {
        lemma_text_less_irrefl(files@[0]@);
    }
    while i < files.len()
        invariant
            1 <= i <= files@.len(),
            best < i,
            forall|j: int| 0 <= j < i ==> !text_less(files@[best as int]@, #[trigger] files@[j]@),
        decreases files@.len() - i,
    {
        if text_less_exec(files[best].as_str(), files[i].as_str()) {
            proof {
                assert forall|j: int| 0 <= j < i + 1 implies !text_less(files@[i as int]@, #[trigger] files@[j]@) by {
                    if j == i {
                        lemma_text_less_irrefl(files@[i as int]@);
                    } else if text_less(files@[i as int]@, files@[j]@) {
                        lemma_text_less_trans(files@[best as int]@, files@[i as int]@, files@[j]@);
                    }
                }
            }
            best = i;
        }
        i = i + 1;
    }
    let mut files = files;
    let ghost before = files@;
    let r = files.swap_remove(best);
    proof {
        assert(r == before[best as int]);
    }
    r
}

} // verus!
