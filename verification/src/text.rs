//! Text helpers and the error value that travels through a deploy.

use vstd::prelude::*;
use vstd::string::*;

verus! {

/// `String::push` of the standard library: the given character is appended to
/// the end of the string, and nothing else about it changes.
pub assume_specification[ String::push ](s: &mut String, c: char)
    ensures
        final(s)@ == old(s)@.push(c),
;

/// The messages of an error chain on one line, outermost first, separated by
/// a colon and a blank.
pub open spec fn one_line(chain: Seq<Seq<char>>) -> Seq<char>
    decreases chain.len(),
{
    if chain.len() == 0 {
        Seq::empty()
    } else if chain.len() == 1 {
        chain[0]
    } else {
        one_line(chain.drop_last()) + ": "@ + chain.last()
    }
}

/// An error as a chain of messages: the outermost context first, the root
/// cause last.
#[derive(Debug, PartialEq, Eq)]
pub struct Failure {
    pub chain: Vec<String>,
}

impl View for Failure {
    type V = Seq<Seq<char>>;

    open spec fn view(&self) -> Seq<Seq<char>> {
        self.chain.deep_view()
    }
}

impl DeepView for Failure {
    type V = Seq<Seq<char>>;

    open spec fn deep_view(&self) -> Seq<Seq<char>> {
        self.view()
    }
}

impl Clone for Failure {
    fn clone(&self) -> (copy: Self)
        ensures
            copy@ == self@,
    {
        let mut chain: Vec<String> = Vec::new();
        for i in 0..self.chain.len()
            invariant
                chain.len() == i,
                forall|j: int| 0 <= j < i ==> chain[j]@ == self.chain[j]@,
        {
            chain.push(self.chain[i].clone());
        }
        assert(chain.deep_view() =~= self.chain.deep_view());
        Failure { chain }
    }
}

impl Failure {
    /// An error with a single message.
    pub fn new(message: &str) -> (failure: Failure)
        ensures
            failure@ == seq![message@],
    {
        let mut chain: Vec<String> = Vec::new();
        chain.push(message.to_string());
        assert(chain.deep_view() =~= seq![message@]);
        Failure { chain }
    }

    /// The same error with `message` wrapped around it as the outermost
    /// context.
    pub fn context(self, message: &str) -> (failure: Failure)
        ensures
            failure@ == seq![message@] + self@,
    {
        let mut chain = self.chain;
        chain.insert(0, message.to_string());
        assert(chain.deep_view() =~= seq![message@] + self@);
        Failure { chain }
    }

    /// The whole chain on one line.
    pub fn one_line(&self) -> (line: String)
        ensures
            line@ == one_line(self@),
    {
        let mut line = String::new();
        for i in 0..self.chain.len()
            invariant
                line@ == one_line(self.chain.deep_view().take(i as int)),
        {
            let ghost before = self.chain.deep_view().take(i as int);
            let ghost after = self.chain.deep_view().take(i + 1);
            assert(after.drop_last() =~= before);
            assert(after.last() == self.chain[i as int]@);
            if i > 0 {
                line.append(": ");
            } else {
                assert(line@ =~= Seq::<char>::empty());
            }
            line.append(self.chain[i].as_str());
            assert(line@ =~= one_line(after));
        }
        assert(self.chain.deep_view().take(self.chain.len() as int) =~= self.chain.deep_view());
        line
    }
}

/// `left` followed by `right`.
pub fn joined(left: &str, right: &str) -> (text: String)
    ensures
        text@ == left@ + right@,
{
    left.to_string().concat(right)
}

/// The digit with a value below ten.
pub open spec fn digit(value: nat) -> char {
    ('0' as u32 + value) as char
}

/// A number in decimal digits, without leading zeros.
pub open spec fn digits(value: nat) -> Seq<char>
    decreases value,
{
    if value < 10 {
        seq![digit(value)]
    } else {
        digits(value / 10).push(digit(value % 10))
    }
}

/// A whole number as it is written.
pub open spec fn decimal_of(value: int) -> Seq<char> {
    if value < 0 {
        "-"@ + digits((-value) as nat)
    } else {
        digits(value as nat)
    }
}

/// A number in decimal digits, without leading zeros.
fn written(value: u64) -> (text: String)
    ensures
        text@ == digits(value as nat),
    decreases value,
{
    let last: u8 = (value % 10) as u8;
    let c = (48 + last) as char;
    if value < 10 {
        let mut text = String::new();
        text.push(c);
        assert(text@ =~= digits(value as nat));
        text
    } else {
        let mut text = written(value / 10);
        text.push(c);
        text
    }
}

/// A whole number as it is written.
pub fn decimal(value: i64) -> (text: String)
    ensures
        text@ == decimal_of(value as int),
{
    if value < 0 {
        let magnitude: u64 = (-(value + 1)) as u64 + 1;
        joined("-", written(magnitude).as_str())
    } else {
        written(value as u64)
    }
}

/// A copy of an optional text.
pub fn copied(text: &Option<String>) -> (copy: Option<String>)
    ensures
        copy.deep_view() == text.deep_view(),
{
    match text {
        Some(t) => Some(t.clone()),
        None => None,
    }
}

} // verus!
