use vstd::prelude::*;
use vstd::string::StringExecFns;

verus! {

/// The character of one decimal digit.
pub open spec fn digit(d: nat) -> char
    recommends
        d < 10,
{
    if d == 0 {
        '0'
    } else if d == 1 {
        '1'
    } else if d == 2 {
        '2'
    } else if d == 3 {
        '3'
    } else if d == 4 {
        '4'
    } else if d == 5 {
        '5'
    } else if d == 6 {
        '6'
    } else if d == 7 {
        '7'
    } else if d == 8 {
        '8'
    } else {
        '9'
    }
}

/// The decimal notation of `n`, without leading zeros.
pub open spec fn decimal(n: nat) -> Seq<char>
    decreases n,
{
    if n < 10 {
        seq![digit(n)]
    } else {
        decimal(n / 10).push(digit(n % 10))
    }
}

/// The decimal notation of `n`, filled with zeros on the left to three
/// characters where it is shorter.
pub open spec fn decimal_three(n: nat) -> Seq<char> {
    if n < 10 {
        seq!['0', '0'] + decimal(n)
    } else if n < 100 {
        seq!['0'] + decimal(n)
    } else {
        decimal(n)
    }
}

/// The name of the file that holds the pages `start` to `end`.
pub open spec fn split_name(prefix: Seq<char>, start: u32, end: u32) -> Seq<char> {
    prefix + seq!['_'] + decimal(start as nat) + seq!['-'] + decimal(end as nat) + seq![
        '.',
        'p',
        'd',
        'f',
    ]
}

/// The name of the image file of page `number` of the document `stem`.
pub open spec fn image_name(stem: Seq<char>, number: u64) -> Seq<char> {
    stem + seq!['_', 'p', 'a', 'g', 'e', '_'] + decimal_three(number as nat) + seq![
        '.',
        'p',
        'n',
        'g',
    ]
}

/// One decimal digit as text.
fn digit_text(d: u64) -> (text: &'static str)
    requires
        d < 10,
    ensures
        text@ == seq![digit(d as nat)],
{
    proof {
        reveal_strlit("0");
        reveal_strlit("1");
        reveal_strlit("2");
        reveal_strlit("3");
        reveal_strlit("4");
        reveal_strlit("5");
        reveal_strlit("6");
        reveal_strlit("7");
        reveal_strlit("8");
        reveal_strlit("9");
    }
    let text = if d == 0 {
        "0"
    } else if d == 1 {
        "1"
    } else if d == 2 {
        "2"
    } else if d == 3 {
        "3"
    } else if d == 4 {
        "4"
    } else if d == 5 {
        "5"
    } else if d == 6 {
        "6"
    } else if d == 7 {
        "7"
    } else if d == 8 {
        "8"
    } else {
        "9"
    };
    assert(text@ =~= seq![digit(d as nat)]);
    text
}

/// The decimal notation of a number.
pub fn decimal_text(n: u64) -> (text: String)
    ensures
        text@ == decimal(n as nat),
    decreases n,
{
    if n < 10 {
        String::from_str(digit_text(n))
    } else {
        let mut text = decimal_text(n / 10);
        text.append(digit_text(n % 10));
        proof {
            assert(decimal((n / 10) as nat) + seq![digit((n % 10) as nat)] =~= decimal(
                (n / 10) as nat,
            ).push(digit((n % 10) as nat)));
        }
        text
    }
}

/// The name of the file that `split` writes for the pages `start` to `end`:
/// the prefix, an underscore, the two page numbers with a hyphen between
/// them, and the extension.
pub fn split_file_name(prefix: &str, start: u32, end: u32) -> (file: String)
    ensures
        file@ == split_name(prefix@, start, end),
{
    proof {
        reveal_strlit("_");
        reveal_strlit("-");
        reveal_strlit(".pdf");
    }
    let mut file = String::from_str(prefix);
    file.append("_");
    file.append(decimal_text(start as u64).as_str());
    file.append("-");
    file.append(decimal_text(end as u64).as_str());
    file.append(".pdf");
    proof {
        assert(".pdf"@ =~= seq!['.', 'p', 'd', 'f']);
        assert("_"@ =~= seq!['_']);
        assert("-"@ =~= seq!['-']);
    }
    file
}

/// The name of the image file for page `number` of the document whose file
/// name, without its extension, is `stem`: the page number takes at least
/// three digits.
pub fn page_image_name(stem: &str, number: u64) -> (file: String)
    ensures
        file@ == image_name(stem@, number),
{
    proof {
        reveal_strlit("_page_");
        reveal_strlit("00");
        reveal_strlit("0");
        reveal_strlit(".png");
    }
    let mut file = String::from_str(stem);
    file.append("_page_");
    if number < 10 {
        file.append("00");
    } else if number < 100 {
        file.append("0");
    }
    file.append(decimal_text(number).as_str());
    file.append(".png");
    proof {
        assert("_page_"@ =~= seq!['_', 'p', 'a', 'g', 'e', '_']);
        assert(".png"@ =~= seq!['.', 'p', 'n', 'g']);
        assert("00"@ =~= seq!['0', '0']);
        assert("0"@ =~= seq!['0']);
        assert(file@ =~= image_name(stem@, number));
    }
    file
}

} // verus!
