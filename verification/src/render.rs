//! The summary of a node as text.

use crate::graph::NodeId;
use crate::info::NodeInfo;
use itertools::Itertools;
use vstd::prelude::*;
use vstd::string::StringExecFns;

verus! {

/// The character of a decimal digit.
pub open spec fn digit_char(d: nat) -> char {
    if d == 0 {
        '0'
    } else if d == 1 {
        '1'
    } else if d == 2 {
        '2'
    } else if d == 3 {
        '3'
    } else if d == 4 {
        '4'
    } else if d == 5 {
        '5'
    } else if d == 6 {
        '6'
    } else if d == 7 {
        '7'
    } else if d == 8 {
        '8'
    } else {
        '9'
    }
}

/// A number in decimal, without leading zeros.
pub open spec fn decimal(n: nat) -> Seq<char>
    decreases n,
{
    if n < 10 {
        seq![digit_char(n)]
    } else {
        decimal(n / 10).push(digit_char(n % 10))
    }
}

/// The items, with the separator between each two.
pub open spec fn joined(parts: Seq<Seq<char>>, sep: Seq<char>) -> Seq<char>
    decreases parts.len(),
{
    if parts.len() == 0 {
        Seq::empty()
    } else if parts.len() == 1 {
        parts[0]
    } else {
        joined(parts.drop_last(), sep) + sep + parts.last()
    }
}

/// The texts that a vector of strings holds.
pub open spec fn texts(parts: Seq<String>) -> Seq<Seq<char>> {
    Seq::new(parts.len(), |i: int| parts[i]@)
}

/// A node as text.
pub open spec fn node_text(id: NodeId) -> Seq<char> {
    "n["@ + decimal(id as nat) + "]"@
}

/// A fact about a node as text: its name and the node that witnesses it.
pub open spec fn fact_text(name: Seq<char>, id: NodeId) -> Seq<char> {
    name + " "@ + node_text(id)
}

/// The text of a fact, if it has a witness.
pub open spec fn fact(name: Seq<char>, witness: Option<NodeId>) -> Seq<Seq<char>> {
    match witness {
        Some(id) => seq![fact_text(name, id)],
        None => Seq::empty(),
    }
}

impl NodeInfo {
    /// The facts of a summary that have a witness, each as text.  Both
    /// offset facts show the witness of the backward offset.
    pub open spec fn facts(self) -> Seq<Seq<char>> {
        fact("mut"@, self.flows_to_mutation) + fact("load"@, self.flows_to_load) + fact(
            "+offset"@,
            self.flows_to_neg_offset,
        ) + fact("-offset"@, self.flows_to_neg_offset) + fact("non unique by"@, self.non_unique)
    }

    /// The summary as text: its facts, separated by a comma and a space.
    pub open spec fn text(self) -> Seq<char> {
        joined(self.facts(), ", "@)
    }

    /// Writes the summary out as text.
    pub fn describe(&self) -> (s: String)
        ensures
            s@ == self.text(),
    {
        let mut parts: Vec<String> = Vec::new();
        push_fact(&mut parts, "mut", self.flows_to_mutation);
        push_fact(&mut parts, "load", self.flows_to_load);
        push_fact(&mut parts, "+offset", self.flows_to_neg_offset);
        push_fact(&mut parts, "-offset", self.flows_to_neg_offset);
        push_fact(&mut parts, "non unique by", self.non_unique);
        join(&parts, ", ")
    }
}

/// Appends the text of a fact if it has a witness.
fn push_fact(parts: &mut Vec<String>, name: &str, witness: Option<NodeId>)
    ensures
        texts(final(parts)@) == texts(old(parts)@) + fact(name@, witness),
{
    match witness {
        Some(id) => {
            let mut s = String::from_str(name);
            s.append(" ");
            s.append("n[");
            let number = decimal_string(id);
            s.append(number.as_str());
            s.append("]");
            assert(s@ =~= fact_text(name@, id));
            parts.push(s);
        },
        None => {
        },
    }
}

/// The text of a decimal digit.
fn digit_str(d: usize) -> (s: &'static str)
    requires
        d < 10,
    ensures
        s@ == seq![digit_char(d as nat)],
{
    proof {
        reveal_strlit("0");
        reveal_strlit("1");
        reveal_strlit("2");
        reveal_strlit("3");
        reveal_strlit("4");
        reveal_strlit("5");
        reveal_strlit("6");
        reveal_strlit("7");
        reveal_strlit("8");
        reveal_strlit("9");
    }
    let s = if d == 0 {
        "0"
    } else if d == 1 {
        "1"
    } else if d == 2 {
        "2"
    } else if d == 3 {
        "3"
    } else if d == 4 {
        "4"
    } else if d == 5 {
        "5"
    } else if d == 6 {
        "6"
    } else if d == 7 {
        "7"
    } else if d == 8 {
        "8"
    } else {
        "9"
    };
    s
}

/// Writes a number out in decimal.
pub fn decimal_string(n: usize) -> (s: String)
    ensures
        s@ == decimal(n as nat),
    decreases n,
{
    if n < 10 {
        String::from_str(digit_str(n))
    } else {
        let mut s = decimal_string(n / 10);
        s.append(digit_str(n % 10));
        s
    }
}

/// `Itertools::join` on the items of a vector: the first item, then for
/// every further item the separator and the item.  Of an empty vector it
/// makes the empty string.
#[verifier::external_body]
fn join(parts: &Vec<String>, sep: &str) -> (s: String)
    ensures
        s@ == joined(texts(parts@), sep@),
{
    parts.iter().join(sep)
}

} // verus!
