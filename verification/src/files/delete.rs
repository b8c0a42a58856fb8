//! Sending a path to the recycle bin.
use crate::text;
use vstd::prelude::*;

verus! {

/// The buffer that names the path: its UTF-16 units, and two zeros that end the list.
pub fn recycle_buffer(units: &[u16]) -> (r: Vec<u16>)
    ensures
        r@ == units@ + seq![0u16, 0u16],
{
    let mut out: Vec<u16> = Vec::new();
    let mut i: usize = 0;
    while i < units.len()
        invariant
            i <= units@.len(),
            out@ == units@.take(i as int),
        decreases units@.len() - i,
    {
        out.push(units[i]);
        i = i + 1;
        assert(out@ =~= units@.take(i as int));
    }
    out.push(0);
    out.push(0);
    assert(out@ =~= units@ + seq![0u16, 0u16]);
    out
}

/// A number with its sign.
pub open spec fn signed_decimal(n: i32) -> Seq<char> {
    if n < 0 {
        "-"@ + text::decimal((-n) as nat)
    } else {
        text::decimal(n as nat)
    }
}

/// What came of it, given the code that the system returned.
pub fn to_recycle_bin(code: i32) -> (r: Result<(), String>)
    ensures
        if code == 0 {
            r is Ok
        } else {
            r matches Err(m) && m@ == "SHFileOperationW failed (code "@ + signed_decimal(code)
                + ")"@
        },
{
    if code == 0 {
        return Ok(());
    }
    let mut m = text::owned("SHFileOperationW failed (code ");
    if code < 0 {
        let wide: i64 = code as i64;
        m.append("-");
        text::push_decimal(&mut m, (0 - wide) as u64);
    } else {
        text::push_decimal(&mut m, code as u64);
    }
    m.append(")");
    assert(m@ =~= "SHFileOperationW failed (code "@ + signed_decimal(code) + ")"@);
    Err(m)
}

/// A number with its sign reads back as the number.
pub proof fn signed_numerals_read_back(n: i32)
    ensures
        text::parsed_i64(signed_decimal(n)) == Some(n as int),
{
    reveal_strlit("-");
    if n < 0 {
        text::numerals_read_back((-n) as nat);
        let d = text::decimal((-n) as nat);
        assert(signed_decimal(n)[0] == '-');
        assert(signed_decimal(n).drop_first() =~= d);
        assert forall|i: int| 0 <= i < d.len() implies text::ascii_digit(#[trigger] d[i]) by {
            assert(48 <= d[i] as int <= 57);
        }
    } else {
        text::numerals_read_back(n as nat);
    }
}

} // verus!
