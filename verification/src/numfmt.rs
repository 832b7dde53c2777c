use vstd::prelude::*;

verus! {

use vstd::string::StringExecFns;

/// The character of one decimal digit.
pub open spec fn spec_digit_char(d: nat) -> char {
    if d == 0 {
        '0'
    } else if d == 1 {
        '1'
    } else if d == 2 {
        '2'
    } else if d == 3 {
        '3'
    } else if d == 4 {
        '4'
    } else if d == 5 {
        '5'
    } else if d == 6 {
        '6'
    } else if d == 7 {
        '7'
    } else if d == 8 {
        '8'
    } else {
        '9'
    }
}

/// The decimal digits of a number, most significant first, with no sign
/// and no leading zeros (zero itself is the single digit 0).
pub open spec fn spec_decimal(n: nat) -> Seq<char>
    decreases n,
{
    if n < 10 {
        seq![spec_digit_char(n)]
    } else {
        spec_decimal(n / 10).push(spec_digit_char(n % 10))
    }
}

/// The decimal form of a signed number: a leading minus sign when it is
/// negative, then its magnitude's digits.
pub open spec fn spec_decimal_signed(n: int) -> Seq<char> {
    if n < 0 {
        seq!['-'] + spec_decimal((-n) as nat)
    } else {
        spec_decimal(n as nat)
    }
}

/// One decimal digit as a string slice.
fn digit_str(d: usize) -> (s: &'static str)
    requires
        d < 10,
    ensures
        s@ == seq![spec_digit_char(d as nat)],
{
    proof {
        reveal_strlit("0");
        reveal_strlit("1");
        reveal_strlit("2");
        reveal_strlit("3");
        reveal_strlit("4");
        reveal_strlit("5");
        reveal_strlit("6");
        reveal_strlit("7");
        reveal_strlit("8");
        reveal_strlit("9");
    }
    let r = match d {
        0 => "0",
        1 => "1",
        2 => "2",
        3 => "3",
        4 => "4",
        5 => "5",
        6 => "6",
        7 => "7",
        8 => "8",
        _ => "9",
    };
    proof {
        assert(r@ =~= seq![spec_digit_char(d as nat)]);
    }
    r
}

/// A number rendered in decimal, as `spec_decimal` describes.
pub fn usize_to_string(n: usize) -> (s: String)
    ensures
        s@ == spec_decimal(n as nat),
    decreases n,
{
    if n < 10 {
        let s = String::from_str(digit_str(n));
        proof {
            assert(s@ =~= spec_decimal(n as nat));
        }
        s
    } else {
        let mut s = usize_to_string(n / 10);
        s.append(digit_str(n % 10));
        proof {
            assert(s@ =~= spec_decimal(n as nat));
        }
        s
    }
}

/// A signed number rendered in decimal, as `spec_decimal_signed`
/// describes.
pub fn isize_to_string(n: isize) -> (s: String)
    ensures
        s@ == spec_decimal_signed(n as int),
{
    proof {
        reveal_strlit("-");
    }
    if n >= 0 {
        usize_to_string(n as usize)
    } else {
        let mag: usize = if n == isize::MIN {
            (isize::MAX as usize) + 1
        } else {
            (-n) as usize
        };
        proof {
            assert(mag as int == -(n as int));
        }
        let mut s = String::from_str("-");
        let digits = usize_to_string(mag);
        s.append(digits.as_str());
        proof {
            assert(s@ =~= spec_decimal_signed(n as int));
        }
        s
    }
}

/// The texts of a row of cells, cell by cell.
pub open spec fn spec_views_of(cells: Seq<String>) -> Seq<Seq<char>> {
    Seq::new(cells.len(), |i: int| cells[i]@)
}

/// Appending a cell appends its text.
pub proof fn lemma_views_push(cells: Seq<String>, x: String)
    ensures
        spec_views_of(cells.push(x)) == spec_views_of(cells).push(x@),
{
    assert(spec_views_of(cells.push(x)) =~= spec_views_of(cells).push(x@));
}

/// Concatenating cell rows concatenates their texts.
pub proof fn lemma_views_concat(a: Seq<String>, b: Seq<String>)
    ensures
        spec_views_of(a + b) == spec_views_of(a) + spec_views_of(b),
{
    assert(spec_views_of(a + b) =~= spec_views_of(a) + spec_views_of(b));
}

/// The cells of a row joined by commas.
pub open spec fn spec_join_comma(cells: Seq<Seq<char>>, i: int, acc: Seq<char>) -> Seq<char>
    decreases cells.len() - i,
{
    if i < 0 || i >= cells.len() {
        acc
    } else {
        let acc2 = if i == 0 {
            acc + cells[i]
        } else {
            acc + seq![','] + cells[i]
        };
        spec_join_comma(cells, i + 1, acc2)
    }
}

/// Joins the cells of a row with commas, as `spec_join_comma` describes.
pub fn join_comma(cells: &Vec<String>) -> (s: String)
    ensures
        s@ == spec_join_comma(spec_views_of(cells@), 0, Seq::empty()),
{
    proof {
        reveal_strlit(",");
    }
    let ghost view_cells = spec_views_of(cells@);
    let mut s = String::new();
    let mut i: usize = 0;
    while i < cells.len()
        invariant
            i <= cells@.len(),
            view_cells == spec_views_of(cells@),
            ","@ == seq![','],
            spec_join_comma(view_cells, i as int, s@) == spec_join_comma(
                view_cells,
                0,
                Seq::empty(),
            ),
        decreases cells@.len() - i,
    {
        if i > 0 {
            s.append(",");
        }
        s.append(cells[i].as_str());
        i = i + 1;
    }
    s
}

/// The names of a roster joined by comma and space.
pub open spec fn spec_join_names(names: Seq<String>, i: int, acc: Seq<char>) -> Seq<char>
    decreases names.len() - i,
{
    if i < 0 || i >= names.len() {
        acc
    } else {
        let acc2 = if i == 0 {
            acc + names[i]@
        } else {
            acc + seq![',', ' '] + names[i]@
        };
        spec_join_names(names, i + 1, acc2)
    }
}

/// Joins roster names with comma and space, as `spec_join_names`
/// describes.
pub fn join_names(names: &Vec<String>) -> (s: String)
    ensures
        s@ == spec_join_names(names@, 0, Seq::empty()),
{
    proof {
        reveal_strlit(", ");
    }
    let mut s = String::new();
    let mut i: usize = 0;
    while i < names.len()
        invariant
            i <= names@.len(),
            ", "@ == seq![',', ' '],
            spec_join_names(names@, i as int, s@) == spec_join_names(names@, 0, Seq::empty()),
        decreases names@.len() - i,
    {
        if i > 0 {
            s.append(", ");
        }
        s.append(names[i].as_str());
        i = i + 1;
    }
    s
}

} // verus!
