//! Orderings and conversions of names and text used across the library.
use vstd::prelude::*;
use vstd::string::StringSliceAdditionalSpecFns;

verus! {

/// A three-way comparison result.
#[derive(Clone, Copy, Debug, PartialEq, Eq, Structural)]
pub enum Order {
    Less,
    Equal,
    Greater,
}

impl Order {
    /// The comparison with its two operands exchanged.
    pub open spec fn flip(self) -> Order {
        match self {
            Order::Less => Order::Greater,
            Order::Equal => Order::Equal,
            Order::Greater => Order::Less,
        }
    }

    /// The lexicographic combination: this comparison unless it is equal.
    pub open spec fn and_next(self, next: Order) -> Order {
        match self {
            Order::Equal => next,
            other => other,
        }
    }
}

/// Orders two integers.
pub open spec fn int_order(a: int, b: int) -> Order {
    if a < b {
        Order::Less
    } else if a > b {
        Order::Greater
    } else {
        Order::Equal
    }
}

/// Lexicographic order of two sequences of integers: the first differing
/// element decides, and a proper prefix comes first.
pub open spec fn lex_order(a: Seq<int>, b: Seq<int>) -> Order
    decreases a.len(),
{
    if a.len() == 0 {
        if b.len() == 0 {
            Order::Equal
        } else {
            Order::Less
        }
    } else if b.len() == 0 {
        Order::Greater
    } else if a[0] < b[0] {
        Order::Less
    } else if a[0] > b[0] {
        Order::Greater
    } else {
        lex_order(a.drop_first(), b.drop_first())
    }
}

/// A byte string as a sequence of integers.
pub open spec fn byte_ints(a: Seq<u8>) -> Seq<int> {
    a.map_values(|x: u8| x as int)
}

/// A UTF-16 string as a sequence of integers.
pub open spec fn unit_ints(a: Seq<u16>) -> Seq<int> {
    a.map_values(|x: u16| x as int)
}

/// Lexicographic order of byte strings, as std orders byte slices.
pub open spec fn bytes_order(a: Seq<u8>, b: Seq<u8>) -> Order {
    lex_order(byte_ints(a), byte_ints(b))
}

/// Lexicographic order of sequences of byte strings, as std orders iterators
/// of byte slices.
pub open spec fn path_order(a: Seq<Seq<u8>>, b: Seq<Seq<u8>>) -> Order
    decreases a.len(),
{
    if a.len() == 0 {
        if b.len() == 0 {
            Order::Equal
        } else {
            Order::Less
        }
    } else if b.len() == 0 {
        Order::Greater
    } else {
        match bytes_order(a[0], b[0]) {
            Order::Equal => path_order(a.drop_first(), b.drop_first()),
            other => other,
        }
    }
}

proof fn lemma_lex_order_skip(a: Seq<int>, b: Seq<int>, i: int)
    requires
        0 <= i <= a.len(),
        i <= b.len(),
        forall|k: int| 0 <= k < i ==> a[k] == b[k],
    ensures
        lex_order(a, b) == lex_order(a.skip(i), b.skip(i)),
    decreases i,
{
    if i > 0 {
        lemma_lex_order_skip(a.drop_first(), b.drop_first(), i - 1);
        assert(a.drop_first().skip(i - 1) =~= a.skip(i));
        assert(b.drop_first().skip(i - 1) =~= b.skip(i));
    } else {
        assert(a.skip(0) =~= a);
        assert(b.skip(0) =~= b);
    }
}

/// Lexicographic order is reversed by exchanging its operands.
pub proof fn lemma_lex_order_flip(a: Seq<int>, b: Seq<int>)
    ensures
        lex_order(b, a) == lex_order(a, b).flip(),
    decreases a.len(),
{
    if a.len() > 0 && b.len() > 0 && a[0] == b[0] {
        lemma_lex_order_flip(a.drop_first(), b.drop_first());
    }
}

/// Lexicographic order is equal only on equal sequences.
pub proof fn lemma_lex_order_equal(a: Seq<int>, b: Seq<int>)
    ensures
        (lex_order(a, b) == Order::Equal) == (a == b),
    decreases a.len(),
{
    if a.len() == 0 || b.len() == 0 {
        if a.len() != b.len() {
            assert(a.len() != b.len());
        } else {
            assert(a =~= b);
        }
    } else if a[0] != b[0] {
        assert(a[0] != b[0]);
    } else {
        lemma_lex_order_equal(a.drop_first(), b.drop_first());
        if a.drop_first() == b.drop_first() {
            assert(a =~= seq![a[0]] + a.drop_first());
            assert(b =~= seq![b[0]] + b.drop_first());
        } else {
            if a == b {
                assert(a.drop_first() == b.drop_first());
            }
        }
    }
}

/// Compares two byte strings lexicographically.
pub fn compare_bytes(a: &[u8], b: &[u8]) -> (r: Order)
    ensures
        r == bytes_order(a@, b@),
{
    let mut i: usize = 0;
    let n = if a.len() < b.len() { a.len() } else { b.len() };
    proof {
        lemma_lex_order_skip(byte_ints(a@), byte_ints(b@), 0);
    }
    while i < n
        invariant
            n <= a.len(),
            n <= b.len(),
            n == a.len() || n == b.len(),
            0 <= i <= n,
            forall|k: int| 0 <= k < i ==> a@[k] == b@[k],
        decreases n - i,
    {
        if a[i] < b[i] {
            proof {
                lemma_lex_order_skip(byte_ints(a@), byte_ints(b@), i as int);
            }
            return Order::Less;
        }
        if a[i] > b[i] {
            proof {
                lemma_lex_order_skip(byte_ints(a@), byte_ints(b@), i as int);
            }
            return Order::Greater;
        }
        i = i + 1;
    }
    proof {
        lemma_lex_order_skip(byte_ints(a@), byte_ints(b@), i as int);
    }
    if a.len() < b.len() {
        Order::Less
    } else if a.len() > b.len() {
        Order::Greater
    } else {
        Order::Equal
    }
}

/// Compares two UTF-16 strings lexicographically by code unit.
pub fn compare_units(a: &[u16], b: &[u16]) -> (r: Order)
    ensures
        r == lex_order(unit_ints(a@), unit_ints(b@)),
{
    let mut i: usize = 0;
    let n = if a.len() < b.len() { a.len() } else { b.len() };
    proof {
        lemma_lex_order_skip(unit_ints(a@), unit_ints(b@), 0);
    }
    while i < n
        invariant
            n <= a.len(),
            n <= b.len(),
            n == a.len() || n == b.len(),
            0 <= i <= n,
            forall|k: int| 0 <= k < i ==> a@[k] == b@[k],
        decreases n - i,
    {
        if a[i] < b[i] {
            proof {
                lemma_lex_order_skip(unit_ints(a@), unit_ints(b@), i as int);
            }
            return Order::Less;
        }
        if a[i] > b[i] {
            proof {
                lemma_lex_order_skip(unit_ints(a@), unit_ints(b@), i as int);
            }
            return Order::Greater;
        }
        i = i + 1;
    }
    proof {
        lemma_lex_order_skip(unit_ints(a@), unit_ints(b@), i as int);
    }
    if a.len() < b.len() {
        Order::Less
    } else if a.len() > b.len() {
        Order::Greater
    } else {
        Order::Equal
    }
}

/// Orders two unsigned integers.
pub fn compare_u64(a: u64, b: u64) -> (r: Order)
    ensures
        r == int_order(a as int, b as int),
{
    if a < b {
        Order::Less
    } else if a > b {
        Order::Greater
    } else {
        Order::Equal
    }
}

/// Whether two strings hold the same characters.
pub fn str_eq(a: &str, b: &str) -> (r: bool)
    ensures
        r == (a@ == b@),
{
    let n = a.unicode_len();
    if n != b.unicode_len() {
        return false;
    }
    let mut i: usize = 0;
    while i < n
        invariant
            n == a@.len(),
            n == b@.len(),
            0 <= i <= n,
            forall|k: int| 0 <= k < i ==> a@[k] == b@[k],
        decreases n - i,
    {
        if a.get_char(i) != b.get_char(i) {
            return false;
        }
        i = i + 1;
    }
    assert(a@ =~= b@);
    true
}

/// What `String::from_utf8_lossy` returns for a byte string.
pub uninterp spec fn utf8_lossy(bytes: Seq<u8>) -> Seq<char>;

/// Calls `String::from_utf8_lossy`, which decodes UTF-8 and replaces each
/// invalid sequence with U+FFFD; the result is named, not restated.
#[verifier::external_body]
pub(crate) fn lossy_text(bytes: &[u8]) -> (text: String)
    ensures
        text@ == utf8_lossy(bytes@),
{
    String::from_utf8_lossy(bytes).into_owned()
}

/// What `str::as_bytes` reports for text: its UTF-8 encoding.
pub open spec fn utf8_bytes(text: &str) -> Seq<u8> {
    text.spec_bytes()
}

/// Copies the UTF-8 bytes of a string.
pub fn text_bytes(text: &str) -> (bytes: Vec<u8>)
    ensures
        bytes@ == text.spec_bytes(),
{
    text.as_bytes_vec()
}

} // verus!

verus! {

/// Paths compare in reverse when their operands are exchanged.
pub proof fn lemma_path_order_flip(a: Seq<Seq<u8>>, b: Seq<Seq<u8>>)
    ensures
        path_order(b, a) == path_order(a, b).flip(),
    decreases a.len(),
{
    if a.len() > 0 && b.len() > 0 {
        lemma_lex_order_flip(byte_ints(a[0]), byte_ints(b[0]));
        lemma_path_order_flip(a.drop_first(), b.drop_first());
    }
}

/// Path order is transitive: a path that sorts no later than a second one,
/// which sorts no later than a third, sorts no later than the third, and
/// strictly first when either step is strict.
pub proof fn lemma_path_order_transitive(a: Seq<Seq<u8>>, b: Seq<Seq<u8>>, c: Seq<Seq<u8>>)
    requires
        path_order(a, b) != Order::Greater,
        path_order(b, c) != Order::Greater,
    ensures
        path_order(a, c) != Order::Greater,
        path_order(a, b) == Order::Less || path_order(b, c) == Order::Less ==> path_order(a, c)
            == Order::Less,
    decreases a.len(),
{
    if a.len() > 0 && b.len() > 0 && c.len() > 0 {
        let (x, y, z) = (byte_ints(a[0]), byte_ints(b[0]), byte_ints(c[0]));
        lemma_lex_order_equal(x, y);
        lemma_lex_order_equal(y, z);
        if lex_order(x, y) == Order::Less && lex_order(y, z) == Order::Less {
            lemma_lex_order_transitive(x, y, z);
        } else if lex_order(x, y) == Order::Equal && lex_order(y, z) == Order::Equal {
            lemma_path_order_transitive(a.drop_first(), b.drop_first(), c.drop_first());
        }
    }
}

/// One lowercase digit of a base up to sixteen: `0` to `9`, then `a` to
/// `f`.
pub open spec fn digit_char(d: nat) -> char {
    if d < 10 {
        (48 + d) as char
    } else {
        (87 + d) as char
    }
}

/// The text of one lowercase digit.
pub fn digit_text(d: u64) -> (text: &'static str)
    requires
        d < 16,
    ensures
        text@ =~= seq![digit_char(d as nat)],
{
    match d {
        0 => {
            proof {
                reveal_strlit("0");
            }
            "0"
        },
        1 => {
            proof {
                reveal_strlit("1");
            }
            "1"
        },
        2 => {
            proof {
                reveal_strlit("2");
            }
            "2"
        },
        3 => {
            proof {
                reveal_strlit("3");
            }
            "3"
        },
        4 => {
            proof {
                reveal_strlit("4");
            }
            "4"
        },
        5 => {
            proof {
                reveal_strlit("5");
            }
            "5"
        },
        6 => {
            proof {
                reveal_strlit("6");
            }
            "6"
        },
        7 => {
            proof {
                reveal_strlit("7");
            }
            "7"
        },
        8 => {
            proof {
                reveal_strlit("8");
            }
            "8"
        },
        9 => {
            proof {
                reveal_strlit("9");
            }
            "9"
        },
        10 => {
            proof {
                reveal_strlit("a");
            }
            "a"
        },
        11 => {
            proof {
                reveal_strlit("b");
            }
            "b"
        },
        12 => {
            proof {
                reveal_strlit("c");
            }
            "c"
        },
        13 => {
            proof {
                reveal_strlit("d");
            }
            "d"
        },
        14 => {
            proof {
                reveal_strlit("e");
            }
            "e"
        },
        _ => {
            proof {
                reveal_strlit("f");
            }
            "f"
        },
    }
}

/// Lexicographic order is transitive on strict inequalities.
pub proof fn lemma_lex_order_transitive(a: Seq<int>, b: Seq<int>, c: Seq<int>)
    requires
        lex_order(a, b) == Order::Less,
        lex_order(b, c) == Order::Less,
    ensures
        lex_order(a, c) == Order::Less,
    decreases a.len(),
{
    if a.len() > 0 && b.len() > 0 && c.len() > 0 && a[0] == b[0] && b[0] == c[0] {
        lemma_lex_order_transitive(a.drop_first(), b.drop_first(), c.drop_first());
    }
}

} // verus!
