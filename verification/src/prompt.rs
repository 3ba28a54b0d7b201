use vstd::prelude::*;

verus! {

/// The prompt's rendering of the working directory: a home-directory
/// prefix appears as `~`, the rest of the path unchanged.
pub open spec fn spec_render_cwd(cwd: Seq<char>, home: Seq<char>) -> Seq<char> {
    if cwd.len() >= home.len() && cwd.subrange(0, home.len() as int) == home {
        seq!['~'] + cwd.subrange(home.len() as int, cwd.len() as int)
    } else {
        cwd
    }
}

/// Whether `home` is a prefix of `cwd`.
fn has_home_prefix(cwd: &str, nc: usize, home: &str, nh: usize) -> (r: bool)
    requires
        nc == cwd@.len(),
        nh == home@.len(),
        nh <= nc,
    ensures
        r == (cwd@.subrange(0, nh as int) == home@),
{
    let ghost pre = cwd@.subrange(0, nh as int);
    let mut i: usize = 0;
    while i < nh
        invariant
            i <= nh <= nc,
            nc == cwd@.len(),
            nh == home@.len(),
            pre == cwd@.subrange(0, nh as int),
            forall|k: int| 0 <= k < i ==> pre[k] == home@[k],
        decreases nh - i,
    {
        if cwd.get_char(i) != home.get_char(i) {
            proof {
                assert(pre[i as int] == cwd@[i as int]);
            }
            return false;
        }
        proof {
            assert(pre[i as int] == cwd@[i as int]);
        }
        i = i + 1;
    }
    proof {
        assert(pre =~= home@);
    }
    true
}

/// Renders the working directory for the prompt.
pub fn render_cwd(cwd: &str, home_dir: &str) -> (r: String)
    ensures
        r@ == spec_render_cwd(cwd@, home_dir@),
{
    let nc = cwd.unicode_len();
    let nh = home_dir.unicode_len();
    if nh <= nc && has_home_prefix(cwd, nc, home_dir, nh) {
        let mut r = String::from_str("~");
        r.append(cwd.substring_char(nh, nc));
        proof {
            reveal_strlit("~");
            assert("~"@ =~= seq!['~']);
            assert(r@ =~= seq!['~'] + cwd@.subrange(nh as int, nc as int));
        }
        r
    } else {
        String::from_str(cwd)
    }
}

} // verus!
