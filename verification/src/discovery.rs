//! LAN discovery naming: the service a host advertises and the friendly label
//! a browser recovers from it.

use vstd::prelude::*;

use crate::text::{from_chars, to_chars};

verus! {

/// The DNS-SD service type hosts advertise themselves under.
pub const SERVICE_TYPE: &'static str = "_survival-cubed._udp.local.";

/// `s` without its trailing `.` characters.
pub open spec fn trim_dots(s: Seq<char>) -> Seq<char>
    decreases s.len(),
{
    if s.len() > 0 && s.last() == '.' {
        trim_dots(s.drop_last())
    } else {
        s
    }
}

/// The label shown for a discovered service's full name: with the service-type
/// suffix stripped and then any trailing dots removed; a name without that
/// suffix is shown whole.
pub open spec fn spec_instance_label(fullname: Seq<char>, service: Seq<char>) -> Seq<char> {
    if fullname.len() >= service.len() && fullname.skip(fullname.len() - service.len()) == service {
        trim_dots(fullname.take(fullname.len() - service.len()))
    } else {
        fullname
    }
}

/// Strip the service-type suffix from a fullname to recover the friendly
/// instance label the host registered.
pub fn instance_label(fullname: &str) -> (r: String)
    ensures
        r@ == spec_instance_label(fullname@, SERVICE_TYPE@),
{
    let name = to_chars(fullname);
    let service = to_chars(SERVICE_TYPE);
    let n = name.len();
    let m = service.len();
    if n < m {
        return from_chars(name.as_slice());
    }
    let base = n - m;
    let mut i: usize = 0;
    while i < m
        invariant
            name@ == fullname@,
            service@ == SERVICE_TYPE@,
            n == name@.len(),
            m == service@.len(),
            base + m == n,
            i <= m,
            forall|j: int| 0 <= j < i ==> name@[base + j] == service@[j],
        decreases m - i,
    {
        if name[base + i] != service[i] {
            proof {
                assert(name@.skip(base as int)[i as int] != service@[i as int]);
            }
            return from_chars(name.as_slice());
        }
        i += 1;
    }
    assert(name@.skip(base as int) =~= service@);
    let mut end = base;
    while end > 0 && name[end - 1] == '.'
        invariant
            end <= base,
            base <= name@.len(),
            trim_dots(name@.take(base as int)) == trim_dots(name@.take(end as int)),
        decreases end,
    {
        assert(name@.take(end as int).drop_last() =~= name@.take(end - 1));
        end -= 1;
    }
    let mut out: Vec<char> = Vec::new();
    let mut k: usize = 0;
    while k < end
        invariant
            k <= end,
            end <= name@.len(),
            out@ == name@.take(k as int),
        decreases end - k,
    {
        out.push(name[k]);
        k += 1;
        assert(out@ =~= name@.take(k as int));
    }
    from_chars(out.as_slice())
}

} // verus!
