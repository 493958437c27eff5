use vstd::prelude::*;

use crate::scan::LINE_FEED;

verus! {

pub const SPACE: u8 = 0x20;

pub const ROOT_MARK: u8 = 0x23;

pub const USER_MARK: u8 = 0x24;

/// What shell_escape makes of one argument, as UTF-8 bytes.
pub uninterp spec fn shell_quoted(arg: Seq<char>) -> Seq<u8>;

/// Relies on shell_escape::unix::escape: the argument quoted for a POSIX
/// shell, which depends on the argument alone.
#[verifier::external_body]
fn quote_arg(arg: &str) -> (r: Vec<u8>)
    ensures
        r@ == shell_quoted(arg@),
{
    shell_escape::unix::escape(std::borrow::Cow::Borrowed(arg)).as_bytes().to_vec()
}

/// The header line of a captured session: `#` for a privileged user, `$`
/// otherwise, each quoted argument after a space, and a line feed.
pub open spec fn header(is_root: bool, quoted: Seq<Seq<u8>>) -> Seq<u8> {
    seq![if is_root { ROOT_MARK } else { USER_MARK }] + spaced(quoted) + seq![LINE_FEED]
}

/// Each argument preceded by a space.
pub open spec fn spaced(quoted: Seq<Seq<u8>>) -> Seq<u8>
    decreases quoted.len(),
{
    if quoted.len() == 0 {
        seq![]
    } else {
        spaced(quoted.drop_last()) + seq![SPACE] + quoted.last()
    }
}

pub open spec fn quoted_views(quoted: Seq<Vec<u8>>) -> Seq<Seq<u8>> {
    quoted.map_values(|q: Vec<u8>| q@)
}

pub open spec fn quoted_args(args: Seq<String>) -> Seq<Seq<u8>> {
    args.map_values(|a: String| shell_quoted(a@))
}

/// Builds the header line from arguments that are already quoted.
pub fn header_from_quoted(is_root: bool, quoted: &Vec<Vec<u8>>) -> (r: Vec<u8>)
    ensures
        r@ == header(is_root, quoted_views(quoted@)),
{
    let mut r: Vec<u8> = Vec::new();
    r.push(if is_root { ROOT_MARK } else { USER_MARK });
    let n = quoted.len();
    let mut i: usize = 0;
    while i < n
        invariant
            i <= n,
            n == quoted@.len(),
            r@ == seq![if is_root { ROOT_MARK } else { USER_MARK }] + spaced(
                quoted_views(quoted@).subrange(0, i as int),
            ),
        decreases n - i,
    {
        let ghost before = r@;
        r.push(SPACE);
        r.extend_from_slice(quoted[i].as_slice());
        proof {
            let qs = quoted_views(quoted@).subrange(0, i + 1);
            assert(qs.drop_last() =~= quoted_views(quoted@).subrange(0, i as int));
            assert(qs.last() == quoted@[i as int]@);
            assert(r@ =~= before + seq![SPACE] + quoted@[i as int]@);
        }
        i = i + 1;
    }
    r.push(LINE_FEED);
    assert(quoted_views(quoted@).subrange(0, n as int) =~= quoted_views(quoted@));
    r
}

/// The header line that introduces a captured session of the command `args`.
pub fn capture_header(is_root: bool, args: &Vec<String>) -> (r: Vec<u8>)
    ensures
        r@ == header(is_root, quoted_args(args@)),
{
    let mut quoted: Vec<Vec<u8>> = Vec::new();
    let n = args.len();
    let mut i: usize = 0;
    while i < n
        invariant
            i <= n,
            n == args@.len(),
            quoted@.len() == i,
            quoted_views(quoted@) == quoted_args(args@).subrange(0, i as int),
        decreases n - i,
    {
        let a: &str = args[i].as_str();
        assert(a@ == args@[i as int]@);
        let q = quote_arg(a);
        let ghost before = quoted@;
        quoted.push(q);
        assert(quoted@ == before.push(q));
        assert(q@ == shell_quoted(args@[i as int]@));
        assert(quoted_views(quoted@)[i as int] == q@);
        assert(quoted_views(quoted@) =~= quoted_args(args@).subrange(0, i + 1));
        i = i + 1;
    }
    assert(quoted_args(args@).subrange(0, n as int) =~= quoted_args(args@));
    header_from_quoted(is_root, &quoted)
}

} // verus!
