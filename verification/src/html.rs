//! The HTML element builder: a tag with optional attributes around some
//! content, a join-with-wrapper helper, and small decimal formatters.

use vstd::prelude::*;
use vstd::string::StringExecFns;
use crate::event::class_views;

verus! {

/// The strings joined with the separator between them, in order.
pub open spec fn join_views(items: Seq<Seq<char>>, sep: Seq<char>) -> Seq<char>
    decreases items.len(),
{
    if items.len() == 0 {
        Seq::empty()
    } else if items.len() == 1 {
        items[0]
    } else {
        join_views(items.drop_last(), sep) + sep + items.last()
    }
}

/// The join, wrapped in the prefix and suffix when it is non-empty, and
/// the fallback (default empty) otherwise.
pub open spec fn spec_wrap_and_join(
    items: Seq<Seq<char>>,
    lhs: Seq<char>,
    sep: Seq<char>,
    rhs: Seq<char>,
    alt: Option<Seq<char>>,
) -> Seq<char> {
    let joined = join_views(items, sep);
    if joined.len() > 0 {
        lhs + joined + rhs
    } else {
        match alt {
            Some(a) => a,
            None => Seq::empty(),
        }
    }
}

/// `<tag attrs>content</tag>`, or `<tag>content</tag>` without attributes.
pub open spec fn spec_html_element(
    tag: Seq<char>,
    attributes: Option<Seq<char>>,
    content: Seq<char>,
) -> Seq<char> {
    "<"@ + tag + (match attributes {
        Some(a) => " "@ + a,
        None => Seq::empty(),
    }) + ">"@ + content + "</"@ + tag + ">"@
}

/// Join the strings with the separator; wrap a non-empty join in `lhs`
/// and `rhs`, otherwise fall back to `alt` (default empty).
pub fn wrap_and_join(
    items: &Vec<String>,
    lhs: &str,
    join: &str,
    rhs: &str,
    alt: Option<&str>,
) -> (r: String)
    ensures
        r@ == spec_wrap_and_join(
            class_views(items@),
            lhs@,
            join@,
            rhs@,
            match alt {
                Some(a) => Some(a@),
                None => None,
            },
        ),
{
    let ghost views = class_views(items@);
    let mut joined = String::new();
    let mut i: usize = 0;
    while i < items.len()
        invariant
            i <= items.len(),
            views == class_views(items@),
            joined@ == join_views(views.take(i as int), join@),
        decreases items.len() - i,
    {
        if i > 0 {
            joined.append(join);
        }
        joined.append(items[i].as_str());
        proof {
            let t = views.take(i + 1);
            assert(t.drop_last() =~= views.take(i as int));
            assert(t.last() == items@[i as int]@);
        }
        i = i + 1;
    }
    proof {
        assert(views.take(items@.len() as int) =~= views);
    }
    if !joined.as_str().is_empty() {
        let mut r = String::from_str(lhs);
        r.append(joined.as_str());
        r.append(rhs);
        proof {
            assert(r@ =~= spec_wrap_and_join(views, lhs@, join@, rhs@, match alt {
                Some(a) => Some(a@),
                None => None,
            }));
        }
        r
    } else {
        match alt {
            Some(a) => String::from_str(a),
            None => String::new(),
        }
    }
}

/// Render a tag with optional attributes around the content.
pub fn make_html_element(tag: &str, attributes: Option<&str>, content: &str) -> (r: String)
    ensures
        r@ == spec_html_element(
            tag@,
            match attributes {
                Some(a) => Some(a@),
                None => None,
            },
            content@,
        ),
{
    let mut r = String::from_str("<");
    r.append(tag);
    if let Some(att) = attributes {
        r.append(" ");
        r.append(att);
    }
    r.append(">");
    r.append(content);
    r.append("</");
    r.append(tag);
    r.append(">");
    proof {
        assert(r@ =~= spec_html_element(tag@, match attributes {
            Some(a) => Some(a@),
            None => None,
        }, content@));
    }
    r
}

/// `key="value"` for every attribute pair, separated by single spaces.
pub open spec fn spec_attr_views(attributes: Seq<(String, String)>) -> Seq<Seq<char>> {
    attributes.map_values(|kv: (String, String)| kv.0@ + "=\""@ + kv.1@ + "\""@)
}

/// Render a tag with a structured attribute list around the content.
pub fn make_html_element2(
    tag: &str,
    attributes: &Vec<(String, String)>,
    content: &str,
) -> (r: String)
    ensures
        r@ == spec_html_element(
            tag@,
            Some(join_views(spec_attr_views(attributes@), " "@)),
            content@,
        ),
{
    let ghost views = spec_attr_views(attributes@);
    let mut joined = String::new();
    let mut i: usize = 0;
    while i < attributes.len()
        invariant
            i <= attributes.len(),
            views == spec_attr_views(attributes@),
            joined@ == join_views(views.take(i as int), " "@),
        decreases attributes.len() - i,
    {
        if i > 0 {
            joined.append(" ");
        }
        let kv = &attributes[i];
        joined.append(kv.0.as_str());
        joined.append("=\"");
        joined.append(kv.1.as_str());
        joined.append("\"");
        proof {
            let t = views.take(i + 1);
            assert(t.drop_last() =~= views.take(i as int));
            assert(joined@ =~= join_views(views.take(i as int), " "@) + (if i > 0 {
                " "@
            } else {
                Seq::<char>::empty()
            }) + views[i as int]);
        }
        i = i + 1;
    }
    proof {
        assert(views.take(attributes@.len() as int) =~= views);
    }
    make_html_element(tag, Some(joined.as_str()), content)
}

/// The digit character of `n` (0..=9).
pub open spec fn spec_digit(n: int) -> char {
    if n == 0 {
        '0'
    } else if n == 1 {
        '1'
    } else if n == 2 {
        '2'
    } else if n == 3 {
        '3'
    } else if n == 4 {
        '4'
    } else if n == 5 {
        '5'
    } else if n == 6 {
        '6'
    } else if n == 7 {
        '7'
    } else if n == 8 {
        '8'
    } else {
        '9'
    }
}

/// Decimal digits of `n`, most significant first, no padding.
pub open spec fn spec_decimal(n: int) -> Seq<char>
    decreases n,
{
    if n < 0 {
        Seq::empty()
    } else if n < 10 {
        seq![spec_digit(n)]
    } else {
        spec_decimal(n / 10).push(spec_digit(n % 10))
    }
}

/// The digit character of `d`, as executable code.
fn digit_str(d: u8) -> (r: &'static str)
    requires
        d < 10,
    ensures
        r@ == seq![spec_digit(d as int)],
{
    proof {
        reveal_strlit("0");
        reveal_strlit("1");
        reveal_strlit("2");
        reveal_strlit("3");
        reveal_strlit("4");
        reveal_strlit("5");
        reveal_strlit("6");
        reveal_strlit("7");
        reveal_strlit("8");
        reveal_strlit("9");
    }
    let r = match d {
        0 => "0",
        1 => "1",
        2 => "2",
        3 => "3",
        4 => "4",
        5 => "5",
        6 => "6",
        7 => "7",
        8 => "8",
        _ => "9",
    };
    proof {
        assert(r@ =~= seq![spec_digit(d as int)]);
    }
    r
}

/// Decimal form of a number below 100.
pub fn decimal_string(n: u8) -> (r: String)
    requires
        n < 100,
    ensures
        r@ == spec_decimal(n as int),
{
    if n < 10 {
        String::from_str(digit_str(n))
    } else {
        let mut r = String::from_str(digit_str(n / 10));
        r.append(digit_str(n % 10));
        proof {
            assert(spec_decimal(n as int / 10) == seq![spec_digit(n as int / 10)]);
            assert(r@ =~= spec_decimal(n as int));
        }
        r
    }
}

/// `n` zero-padded to two digits.
pub open spec fn spec_two_digits_zero(n: int) -> Seq<char> {
    if n < 10 {
        seq!['0'] + spec_decimal(n)
    } else {
        spec_decimal(n)
    }
}

/// `n` space-padded to a width of two.
pub open spec fn spec_two_digits_space(n: int) -> Seq<char> {
    if n < 10 {
        seq![' '] + spec_decimal(n)
    } else {
        spec_decimal(n)
    }
}

/// Zero-padded two-digit decimal form of a number below 100.
pub fn two_digits_zero(n: u8) -> (r: String)
    requires
        n < 100,
    ensures
        r@ == spec_two_digits_zero(n as int),
{
    if n < 10 {
        proof {
            reveal_strlit("0");
        }
        let mut r = String::from_str("0");
        r.append(digit_str(n));
        proof {
            assert(r@ =~= spec_two_digits_zero(n as int));
        }
        r
    } else {
        decimal_string(n)
    }
}

/// Space-padded two-character decimal form of a number below 100.
pub fn two_digits_space(n: u8) -> (r: String)
    requires
        n < 100,
    ensures
        r@ == spec_two_digits_space(n as int),
{
    if n < 10 {
        proof {
            reveal_strlit(" ");
        }
        let mut r = String::from_str(" ");
        r.append(digit_str(n));
        proof {
            assert(r@ =~= spec_two_digits_space(n as int));
        }
        r
    } else {
        decimal_string(n)
    }
}

} // verus!
