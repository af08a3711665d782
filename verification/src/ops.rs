use vstd::prelude::*;

verus! {

use vstd::string::StrSliceExecFns;
use vstd::string::StringExecFns;

/// One step in a derivation chain: how a node, a collection, or a text value
/// was produced from its source.
#[derive(Debug)]
pub enum Operation {
    Find { selector: String },
    FindAll { selector: String, index: usize },
    FindFirst { selector: String },
    FindNth { selector: String, index: usize },
    Child { index: usize },
    ChildText { index: usize },
    Parent,
    Text,
    TextMultiline,
    Attr { key: String },
    Parse,
    External,
}

/// Why a query failed.
#[derive(Debug)]
pub enum Reason {
    NotFound,
    MultipleFound,
    ExpectedElement,
    ExpectedText,
    /// A foreign failure, carried as its display text.
    External(String),
    /// A caller-raised failure, carried as its message.
    Logic(String),
}

impl Operation {
    /// An explicit clone: the result is equal to the original.
    pub fn duplicate(&self) -> (r: Operation)
        ensures
            r == *self,
    {
        match self {
            Operation::Find { selector } => Operation::Find { selector: selector.clone() },
            Operation::FindAll { selector, index } => Operation::FindAll {
                selector: selector.clone(),
                index: *index,
            },
            Operation::FindFirst { selector } => Operation::FindFirst {
                selector: selector.clone(),
            },
            Operation::FindNth { selector, index } => Operation::FindNth {
                selector: selector.clone(),
                index: *index,
            },
            Operation::Child { index } => Operation::Child { index: *index },
            Operation::ChildText { index } => Operation::ChildText { index: *index },
            Operation::Parent => Operation::Parent,
            Operation::Text => Operation::Text,
            Operation::TextMultiline => Operation::TextMultiline,
            Operation::Attr { key } => Operation::Attr { key: key.clone() },
            Operation::Parse => Operation::Parse,
            Operation::External => Operation::External,
        }
    }
}

/// The decimal digit for a value below ten.
pub open spec fn digit_char(d: nat) -> char {
    if d == 0 {
        '0'
    } else if d == 1 {
        '1'
    } else if d == 2 {
        '2'
    } else if d == 3 {
        '3'
    } else if d == 4 {
        '4'
    } else if d == 5 {
        '5'
    } else if d == 6 {
        '6'
    } else if d == 7 {
        '7'
    } else if d == 8 {
        '8'
    } else {
        '9'
    }
}

/// The decimal rendering of a natural number, most significant digit first.
pub open spec fn decimal_digits(n: nat) -> Seq<char>
    decreases n,
{
    if n < 10 {
        seq![digit_char(n)]
    } else {
        decimal_digits(n / 10).push(digit_char(n % 10))
    }
}

fn digit_str(d: usize) -> (r: &'static str)
    requires
        d < 10,
    ensures
        r@ == seq![digit_char(d as nat)],
{
    proof {
        reveal_strlit("0");
        reveal_strlit("1");
        reveal_strlit("2");
        reveal_strlit("3");
        reveal_strlit("4");
        reveal_strlit("5");
        reveal_strlit("6");
        reveal_strlit("7");
        reveal_strlit("8");
        reveal_strlit("9");
    }
    let r: &'static str = match d {
        0 => "0",
        1 => "1",
        2 => "2",
        3 => "3",
        4 => "4",
        5 => "5",
        6 => "6",
        7 => "7",
        8 => "8",
        _ => "9",
    };
    proof {
        assert(r@ =~= seq![digit_char(d as nat)]);
    }
    r
}

/// Renders a number in decimal.
pub fn to_decimal(n: usize) -> (r: String)
    ensures
        r@ == decimal_digits(n as nat),
    decreases n,
{
    let d = digit_str(n % 10);
    if n < 10 {
        d.to_owned()
    } else {
        let mut s = to_decimal(n / 10);
        s.append(d);
        s
    }
}

/// The English ordinal for a number, as the error rendering uses it.
pub open spec fn ordinal_text(n: nat) -> Seq<char> {
    if n == 1 {
        "1st"@
    } else if n == 2 {
        "2nd"@
    } else if n == 3 {
        "3rd"@
    } else {
        decimal_digits(n) + "th"@
    }
}

/// Renders a number as an English ordinal: 1st, 2nd, 3rd, then the digits
/// followed by "th".
pub fn fmt_multiple(n: usize) -> (r: String)
    ensures
        r@ == ordinal_text(n as nat),
{
    match n {
        1 => "1st".to_owned(),
        2 => "2nd".to_owned(),
        3 => "3rd".to_owned(),
        _ => {
            let mut s = to_decimal(n);
            s.append("th");
            s
        },
    }
}

/// The one-line rendering of an operation.
pub open spec fn op_text(op: Operation) -> Seq<char> {
    match op {
        Operation::Find { selector } => "'"@ + selector@ + "'"@,
        Operation::FindAll { selector, index } => ordinal_text(index as nat) + " of '"@
            + selector@ + "'"@,
        Operation::FindFirst { selector } => "first '"@ + selector@ + "'"@,
        Operation::FindNth { selector, index } => ordinal_text(index as nat) + " '"@ + selector@
            + "'"@,
        Operation::Child { index } => ordinal_text(index as nat) + " child"@,
        Operation::ChildText { index } => ordinal_text(index as nat) + " child text"@,
        Operation::Parent => "parent"@,
        Operation::Text => "text"@,
        Operation::TextMultiline => "multiline text"@,
        Operation::Attr { key } => "attr '"@ + key@ + "'"@,
        Operation::Parse => "parse"@,
        Operation::External => "external"@,
    }
}

impl Operation {
    /// Renders the operation for a human reader.
    pub fn describe(&self) -> (r: String)
        ensures
            r@ == op_text(*self),
    {
        match self {
            Operation::Find { selector } => {
                let mut s = "'".to_owned();
                s.append(selector.as_str());
                s.append("'");
                proof {
                    assert(s@ =~= op_text(*self));
                }
                s
            },
            Operation::FindAll { selector, index } => {
                let mut s = fmt_multiple(*index);
                s.append(" of '");
                s.append(selector.as_str());
                s.append("'");
                proof {
                    assert(s@ =~= op_text(*self));
                }
                s
            },
            Operation::FindFirst { selector } => {
                let mut s = "first '".to_owned();
                s.append(selector.as_str());
                s.append("'");
                proof {
                    assert(s@ =~= op_text(*self));
                }
                s
            },
            Operation::FindNth { selector, index } => {
                let mut s = fmt_multiple(*index);
                s.append(" '");
                s.append(selector.as_str());
                s.append("'");
                proof {
                    assert(s@ =~= op_text(*self));
                }
                s
            },
            Operation::Child { index } => {
                let mut s = fmt_multiple(*index);
                s.append(" child");
                proof {
                    assert(s@ =~= op_text(*self));
                }
                s
            },
            Operation::ChildText { index } => {
                let mut s = fmt_multiple(*index);
                s.append(" child text");
                proof {
                    assert(s@ =~= op_text(*self));
                }
                s
            },
            Operation::Parent => "parent".to_owned(),
            Operation::Text => "text".to_owned(),
            Operation::TextMultiline => "multiline text".to_owned(),
            Operation::Attr { key } => {
                let mut s = "attr '".to_owned();
                s.append(key.as_str());
                s.append("'");
                proof {
                    assert(s@ =~= op_text(*self));
                }
                s
            },
            Operation::Parse => "parse".to_owned(),
            Operation::External => "external".to_owned(),
        }
    }
}

/// The one-line rendering of a failure reason.
pub open spec fn reason_text(r: Reason) -> Seq<char> {
    match r {
        Reason::NotFound => "not found"@,
        Reason::MultipleFound => "found too many"@,
        Reason::ExpectedElement => "expected element"@,
        Reason::ExpectedText => "expected text"@,
        Reason::External(text) => text@,
        Reason::Logic(text) => text@,
    }
}

impl Reason {
    /// Renders the reason for a human reader.
    pub fn describe(&self) -> (r: String)
        ensures
            r@ == reason_text(*self),
    {
        match self {
            Reason::NotFound => "not found".to_owned(),
            Reason::MultipleFound => "found too many".to_owned(),
            Reason::ExpectedElement => "expected element".to_owned(),
            Reason::ExpectedText => "expected text".to_owned(),
            Reason::External(text) => text.clone(),
            Reason::Logic(text) => text.clone(),
        }
    }
}

} // verus!
