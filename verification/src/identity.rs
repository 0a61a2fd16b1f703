//! The identity of a running script.

use vstd::prelude::*;
use vstd::string::StringExecFns;

verus! {

/// Says which script instance issued a call. It is carried along for
/// diagnostics; no operation decides anything by it.
#[derive(Clone, Copy, Debug, PartialEq, Eq, Hash, Structural)]
pub struct LuaScriptData {
    sid: u32,
}

/// The character for one decimal digit.
pub open spec fn digit_char(digit: nat) -> char {
    if digit == 0 {
        '0'
    } else if digit == 1 {
        '1'
    } else if digit == 2 {
        '2'
    } else if digit == 3 {
        '3'
    } else if digit == 4 {
        '4'
    } else if digit == 5 {
        '5'
    } else if digit == 6 {
        '6'
    } else if digit == 7 {
        '7'
    } else if digit == 8 {
        '8'
    } else {
        '9'
    }
}

/// The decimal numeral of `number`, without leading zeros.
pub open spec fn decimal(number: nat) -> Seq<char>
    decreases number,
{
    if number < 10 {
        seq![digit_char(number)]
    } else {
        decimal(number / 10).push(digit_char(number % 10))
    }
}

/// The text that describes the script with the given id.
pub open spec fn described(sid: u32) -> Seq<char> {
    "LuaScriptData { sid: "@ + decimal(sid as nat) + " }"@
}

/// The numeral of one decimal digit.
fn digit_text(digit: u32) -> (text: &'static str)
    requires
        digit < 10,
    ensures
        text@ == seq![digit_char(digit as nat)],
{
    proof {
        reveal_strlit("0");
        reveal_strlit("1");
        reveal_strlit("2");
        reveal_strlit("3");
        reveal_strlit("4");
        reveal_strlit("5");
        reveal_strlit("6");
        reveal_strlit("7");
        reveal_strlit("8");
        reveal_strlit("9");
    }
    let text = if digit == 0 {
        "0"
    } else if digit == 1 {
        "1"
    } else if digit == 2 {
        "2"
    } else if digit == 3 {
        "3"
    } else if digit == 4 {
        "4"
    } else if digit == 5 {
        "5"
    } else if digit == 6 {
        "6"
    } else if digit == 7 {
        "7"
    } else if digit == 8 {
        "8"
    } else {
        "9"
    };
    assert(text@ =~= seq![digit_char(digit as nat)]);
    text
}

/// Puts the decimal numeral of `number` behind `text`.
fn append_decimal(text: &mut String, number: u32)
    ensures
        final(text)@ == old(text)@ + decimal(number as nat),
    decreases number,
{
    if number >= 10 {
        append_decimal(text, number / 10);
    }
    text.append(digit_text(number % 10));
    assert(text@ =~= old(text)@ + decimal(number as nat));
}

impl LuaScriptData {
    pub fn new(sid: u32) -> (data: LuaScriptData)
        ensures
            data.sid_spec() == sid,
    {
        LuaScriptData { sid }
    }

    /// The script's id.
    pub closed spec fn sid_spec(&self) -> u32 {
        self.sid
    }

    /// The script's id, unique among the scripts of one host.
    #[verifier::when_used_as_spec(sid_spec)]
    pub fn sid(&self) -> (sid: u32)
        ensures
            sid == self.sid_spec(),
    {
        self.sid
    }

    /// The text under which the script appears in messages, such as
    /// `LuaScriptData { sid: 7 }`.
    pub fn describe(&self) -> (text: String)
        ensures
            text@ == described(self.sid()),
    {
        let mut text = "LuaScriptData { sid: ".to_owned();
        append_decimal(&mut text, self.sid);
        text.append(" }");
        text
    }
}

} // verus!
