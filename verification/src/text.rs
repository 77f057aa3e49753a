use vstd::prelude::*;
use vstd::string::StringExecFns;

verus! {

/// The decimal digit character for `d` in 0..9.
pub open spec fn digit_char(d: int) -> char {
    if d == 0 {
        '0'
    } else if d == 1 {
        '1'
    } else if d == 2 {
        '2'
    } else if d == 3 {
        '3'
    } else if d == 4 {
        '4'
    } else if d == 5 {
        '5'
    } else if d == 6 {
        '6'
    } else if d == 7 {
        '7'
    } else if d == 8 {
        '8'
    } else {
        '9'
    }
}

/// The decimal rendering of `n`, most significant digit first, with no
/// leading zeros (zero itself renders as one '0').
pub open spec fn dec_seq(n: int) -> Seq<char>
    decreases n,
{
    if n < 10 {
        seq![digit_char(n)]
    } else {
        dec_seq(n / 10).push(digit_char(n % 10))
    }
}

fn digit_str(d: u128) -> (r: &'static str)
    requires
        d < 10,
    ensures
        r@ == seq![digit_char(d as int)],
{
    let r: &'static str = if d == 0 {
        "0"
    } else if d == 1 {
        "1"
    } else if d == 2 {
        "2"
    } else if d == 3 {
        "3"
    } else if d == 4 {
        "4"
    } else if d == 5 {
        "5"
    } else if d == 6 {
        "6"
    } else if d == 7 {
        "7"
    } else if d == 8 {
        "8"
    } else {
        "9"
    };
    proof {
        reveal_strlit("0");
        reveal_strlit("1");
        reveal_strlit("2");
        reveal_strlit("3");
        reveal_strlit("4");
        reveal_strlit("5");
        reveal_strlit("6");
        reveal_strlit("7");
        reveal_strlit("8");
        reveal_strlit("9");
        assert(r@ =~= seq![digit_char(d as int)]);
    }
    r
}

/// Renders `n` in decimal.
pub fn u128_to_string(n: u128) -> (r: String)
    ensures
        r@ == dec_seq(n as int),
    decreases n,
{
    if n < 10 {
        digit_str(n).to_owned()
    } else {
        let mut s = u128_to_string(n / 10);
        s.append(digit_str(n % 10));
        proof {
            assert(s@ =~= dec_seq(n as int));
        }
        s
    }
}

/// Text of a teacher double-booking conflict naming the two courses.
pub open spec fn teacher_conflict_desc(c1: u128, c2: u128) -> Seq<char> {
    "Teacher is double-booked for courses "@ + dec_seq(c1 as int) + " and "@ + dec_seq(c2 as int)
        + " at the same time"@
}

pub fn teacher_conflict_description(c1: u128, c2: u128) -> (r: String)
    ensures
        r@ == teacher_conflict_desc(c1, c2),
{
    let mut s = "Teacher is double-booked for courses ".to_owned();
    s.append(u128_to_string(c1).as_str());
    s.append(" and ");
    s.append(u128_to_string(c2).as_str());
    s.append(" at the same time");
    proof {
        assert(s@ =~= teacher_conflict_desc(c1, c2));
    }
    s
}

/// Text of a room double-booking conflict naming the two courses.
pub open spec fn room_conflict_desc(c1: u128, c2: u128) -> Seq<char> {
    "Room is double-booked for courses "@ + dec_seq(c1 as int) + " and "@ + dec_seq(c2 as int)
        + " at the same time"@
}

pub fn room_conflict_description(c1: u128, c2: u128) -> (r: String)
    ensures
        r@ == room_conflict_desc(c1, c2),
{
    let mut s = "Room is double-booked for courses ".to_owned();
    s.append(u128_to_string(c1).as_str());
    s.append(" and ");
    s.append(u128_to_string(c2).as_str());
    s.append(" at the same time");
    proof {
        assert(s@ =~= room_conflict_desc(c1, c2));
    }
    s
}

/// Text of an availability mismatch conflict naming the time slot.
pub open spec fn availability_conflict_desc(slot_id: u128) -> Seq<char> {
    "Teacher is not available during time slot "@ + dec_seq(slot_id as int)
}

pub fn availability_conflict_description(slot_id: u128) -> (r: String)
    ensures
        r@ == availability_conflict_desc(slot_id),
{
    let mut s = "Teacher is not available during time slot ".to_owned();
    s.append(u128_to_string(slot_id).as_str());
    proof {
        assert(s@ =~= availability_conflict_desc(slot_id));
    }
    s
}

} // verus!
