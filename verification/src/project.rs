use vstd::prelude::*;
use vstd::string::StringExecFns;

use crate::ids::{fresh_id, now_timestamp, Id};

verus! {

broadcast use vstd::string::group_string_axioms;

proof fn lemma_pow16_pos(k: nat)
    ensures
        pow16(k) >= 1,
    decreases k,
{
    if k > 0 {
        lemma_pow16_pos((k - 1) as nat);
    }
}

/// One authored project: its records live in a directory named by the
/// leading twelve hex digits of the project's id, under the backend's root.
#[derive(Debug, Clone, PartialEq)]
pub struct Project {
    pub id: Id,
    pub name: String,
    pub path: String,
    pub metadata: ProjectMetadata,
}

/// Version-control bookkeeping the UI shows for a project.
#[derive(Debug, Clone, PartialEq)]
pub struct ProjectMetadata {
    pub created_at: i64,
    pub last_commit: Option<i64>,
    pub current_branch: Option<String>,
    pub branches: Vec<String>,
}

pub open spec fn spec_hex_char(n: int) -> char {
    if n == 0 {
        '0'
    } else if n == 1 {
        '1'
    } else if n == 2 {
        '2'
    } else if n == 3 {
        '3'
    } else if n == 4 {
        '4'
    } else if n == 5 {
        '5'
    } else if n == 6 {
        '6'
    } else if n == 7 {
        '7'
    } else if n == 8 {
        '8'
    } else if n == 9 {
        '9'
    } else if n == 10 {
        'a'
    } else if n == 11 {
        'b'
    } else if n == 12 {
        'c'
    } else if n == 13 {
        'd'
    } else if n == 14 {
        'e'
    } else {
        'f'
    }
}

pub open spec fn pow16(k: nat) -> int
    decreases k,
{
    if k == 0 {
        1
    } else {
        16 * pow16((k - 1) as nat)
    }
}

/// The hex digit at position `k` (most significant first) of the 32-digit
/// form of a 128-bit identifier.
pub open spec fn hex_digit_at(id: Id, k: int) -> int {
    (id as int / pow16((31 - k) as nat)) % 16
}

/// The first twelve hex digits of the identifier's 32-digit form: the name
/// of the project's directory under the backend root.
pub open spec fn spec_short_dir(id: Id) -> Seq<char> {
    Seq::new(12, |k: int| spec_hex_char(hex_digit_at(id, k)))
}

fn hex_char_str(n: u8) -> (r: &'static str)
    requires
        n < 16,
    ensures
        r@ == seq![spec_hex_char(n as int)],
{
    proof {
        reveal_strlit("0");
        reveal_strlit("1");
        reveal_strlit("2");
        reveal_strlit("3");
        reveal_strlit("4");
        reveal_strlit("5");
        reveal_strlit("6");
        reveal_strlit("7");
        reveal_strlit("8");
        reveal_strlit("9");
        reveal_strlit("a");
        reveal_strlit("b");
        reveal_strlit("c");
        reveal_strlit("d");
        reveal_strlit("e");
        reveal_strlit("f");
    }
    let r = if n == 0 {
        "0"
    } else if n == 1 {
        "1"
    } else if n == 2 {
        "2"
    } else if n == 3 {
        "3"
    } else if n == 4 {
        "4"
    } else if n == 5 {
        "5"
    } else if n == 6 {
        "6"
    } else if n == 7 {
        "7"
    } else if n == 8 {
        "8"
    } else if n == 9 {
        "9"
    } else if n == 10 {
        "a"
    } else if n == 11 {
        "b"
    } else if n == 12 {
        "c"
    } else if n == 13 {
        "d"
    } else if n == 14 {
        "e"
    } else {
        "f"
    };
    proof {
        assert(r@ =~= seq![spec_hex_char(n as int)]);
    }
    r
}

/// The directory name a project of this id is stored under.
pub fn short_dir_name(id: Id) -> (r: String)
    ensures
        r@ == spec_short_dir(id),
{
    let mut s = String::new();
    // 16^31: the place value of the most significant hex digit.
    let mut p: u128 = 0x1000_0000_0000_0000_0000_0000_0000_0000;
    proof {
        assert(pow16(31) == 0x1000_0000_0000_0000_0000_0000_0000_0000) by {
            reveal_with_fuel(pow16, 32);
        }
    }
    let mut k: usize = 0;
    while k < 12
        invariant
            k <= 12,
            p as int == pow16((31 - k) as nat),
            p >= 1,
            s@ =~= Seq::new(k as nat, |j: int| spec_hex_char(hex_digit_at(id, j))),
        decreases 12 - k,
    {
        let digit = ((id / p) % 16) as u8;
        proof {
            assert(digit as int == hex_digit_at(id, k as int));
        }
        s.append(hex_char_str(digit));
        proof {
            assert(s@ =~= Seq::new((k + 1) as nat, |j: int| spec_hex_char(hex_digit_at(id, j))));
            let q = pow16((30 - k) as nat);
            lemma_pow16_pos((30 - k) as nat);
            assert(p as int == 16 * q);
            assert(p as int / 16 == q) by (nonlinear_arith)
                requires
                    p as int == 16 * q,
                    q >= 1,
            ;
        }
        p = p / 16;
        k = k + 1;
    }
    proof {
        assert(s@ =~= spec_short_dir(id));
    }
    s
}

impl Project {
    /// Builds a fresh project: a random id, the current time, no branches
    /// or commits yet, and its directory path under the given root.
    pub fn new(name: &str, root_path: &str) -> (r: Self)
        ensures
            r.name@ == name@,
            r.path@ == root_path@ + seq!['/'] + spec_short_dir(r.id),
            r.metadata.last_commit is None,
            r.metadata.current_branch is None,
            r.metadata.branches@ == Seq::<String>::empty(),
    {
        let created_at = now_timestamp();
        let id = fresh_id();
        let short = short_dir_name(id);
        let mut path = String::from_str(root_path);
        proof {
            reveal_strlit("/");
        }
        path.append("/");
        path.append(short.as_str());
        let name = String::from_str(name);
        let metadata = ProjectMetadata {
            created_at,
            last_commit: None,
            current_branch: None,
            branches: Vec::new(),
        };
        proof {
            assert(root_path@ + "/"@ + spec_short_dir(id) =~= root_path@ + seq!['/']
                + spec_short_dir(id));
        }
        Project { path, id, name, metadata }
    }

    pub fn get_id(&self) -> (r: &Id)
        ensures
            *r == self.id,
    {
        &self.id
    }

    pub fn set_last_commit(&mut self, date: i64)
        ensures
            final(self).metadata.last_commit == Some(date),
            final(self).metadata.created_at == old(self).metadata.created_at,
            final(self).metadata.current_branch == old(self).metadata.current_branch,
            final(self).metadata.branches == old(self).metadata.branches,
            final(self).id == old(self).id,
            final(self).name == old(self).name,
            final(self).path == old(self).path,
    {
        self.metadata.last_commit = Some(date);
    }

    pub fn set_current_branch(&mut self, branch: &str)
        ensures
            final(self).metadata.current_branch matches Some(b) && b@ == branch@,
            final(self).metadata.created_at == old(self).metadata.created_at,
            final(self).metadata.last_commit == old(self).metadata.last_commit,
            final(self).metadata.branches == old(self).metadata.branches,
            final(self).id == old(self).id,
            final(self).name == old(self).name,
            final(self).path == old(self).path,
    {
        self.metadata.current_branch = Some(String::from_str(branch));
    }

    /// Records a new branch and makes it the current one.
    pub fn append_branch_and_checkout(&mut self, branch: &str)
        ensures
            final(self).metadata.current_branch matches Some(b) && b@ == branch@,
            final(self).metadata.branches@.len() == old(self).metadata.branches@.len() + 1,
            final(self).metadata.branches@.last()@ == branch@,
            final(self).metadata.branches@.drop_last() == old(self).metadata.branches@,
            final(self).metadata.created_at == old(self).metadata.created_at,
            final(self).metadata.last_commit == old(self).metadata.last_commit,
            final(self).id == old(self).id,
            final(self).name == old(self).name,
            final(self).path == old(self).path,
    {
        self.append_branch(branch);
        self.set_current_branch(branch);
    }

    pub fn append_branch(&mut self, branch: &str)
        ensures
            final(self).metadata.branches@.len() == old(self).metadata.branches@.len() + 1,
            final(self).metadata.branches@.last()@ == branch@,
            final(self).metadata.branches@.drop_last() == old(self).metadata.branches@,
            final(self).metadata.created_at == old(self).metadata.created_at,
            final(self).metadata.last_commit == old(self).metadata.last_commit,
            final(self).metadata.current_branch == old(self).metadata.current_branch,
            final(self).id == old(self).id,
            final(self).name == old(self).name,
            final(self).path == old(self).path,
    {
        self.metadata.branches.push(String::from_str(branch));
        proof {
            assert(self.metadata.branches@.drop_last() =~= old(self).metadata.branches@);
        }
    }

    pub fn get_path(&self) -> (r: &String)
        ensures
            *r == self.path,
    {
        &self.path
    }
}

} // verus!
