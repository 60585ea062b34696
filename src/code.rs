use vstd::prelude::*;

verus! {

pub open spec fn is_push(op: u8) -> bool {
    0x60 <= op <= 0x7f
}

/// Where decoding goes after the instruction at `i`: past its immediate
/// data for a push, else to the next byte.
pub open spec fn next_instruction(code: Seq<u8>, i: nat) -> nat {
    if i < code.len() && is_push(code[i as int]) {
        (i + (code[i as int] - 0x5f) + 1) as nat
    } else {
        i + 1
    }
}

/// Whether decoding from `i` lands on position `p`.
pub open spec fn decodes_to(code: Seq<u8>, i: nat, p: nat) -> bool
    decreases p - i,
{
    if i > p {
        false
    } else if i == p {
        true
    } else if next_instruction(code, i) > p {
        false
    } else {
        decodes_to(code, next_instruction(code, i), p)
    }
}

/// A valid jump target: an instruction start, not push data, holding JUMPDEST.
pub open spec fn is_jump_target(code: Seq<u8>, p: nat) -> bool {
    p < code.len() && code[p as int] == 0x5b && decodes_to(code, 0, p)
}

/// Program bytes together with the bitmap of valid jump targets.
pub struct Code {
    bytes: Vec<u8>,
    valids: Vec<bool>,
}

impl View for Code {
    type V = Seq<u8>;

    closed spec fn view(&self) -> Seq<u8> {
        self.bytes@
    }
}

impl Code {
    pub closed spec fn valids(&self) -> Seq<bool> {
        self.valids@
    }

    pub open spec fn wf(&self) -> bool {
        &&& self.valids().len() == self@.len()
        &&& forall|p: int|
            0 <= p < self@.len() ==> #[trigger] self.valids()[p] == is_jump_target(
                self@,
                p as nat,
            )
    }

    /// Scans `bytes` once to mark its valid jump targets.
    pub fn new(bytes: Vec<u8>) -> (r: Code)
        ensures
            r@ == bytes@,
            r.wf(),
    {
        let n = bytes.len();
        let mut valids: Vec<bool> = Vec::new();
        let mut i: usize = 0;
        let mut skip: usize = 0;
        while i < n
            invariant
                n == bytes@.len(),
                i <= n,
                valids@.len() == i,
                skip <= 32,
                forall|q: int| 0 <= q < i ==> #[trigger] valids@[q] == is_jump_target(bytes@, q as nat),
                forall|q: int|
                    i <= q < i + skip ==> !#[trigger] decodes_to(bytes@, 0, q as nat),
                forall|q: nat|
                    q >= i + skip ==> #[trigger] decodes_to(bytes@, 0, q) == decodes_to(
                        bytes@,
                        (i + skip) as nat,
                        q,
                    ),
            decreases n - i,
        {
            if skip > 0 {
                valids.push(false);
                skip = skip - 1;
            } else {
                let op = bytes[i];
                proof {
                    assert(decodes_to(bytes@, 0, i as nat));
                    assert forall|q: nat| q > i implies #[trigger] decodes_to(bytes@, i as nat, q)
                        == decodes_to(bytes@, next_instruction(bytes@, i as nat), q) by {}
                }
                valids.push(op == 0x5b);
                if 0x60 <= op && op <= 0x7f {
                    skip = (op - 0x5f) as usize;
                }
                proof {
                    assert forall|q: int| i < q < i + 1 + skip implies !#[trigger] decodes_to(
                        bytes@,
                        0,
                        q as nat,
                    ) by {
                        assert(decodes_to(bytes@, 0, q as nat) == decodes_to(
                            bytes@,
                            i as nat,
                            q as nat,
                        ));
                    }
                    assert forall|q: nat| q >= i + 1 + skip implies #[trigger] decodes_to(
                        bytes@,
                        0,
                        q,
                    ) == decodes_to(bytes@, (i + 1 + skip) as nat, q) by {
                        assert(decodes_to(bytes@, 0, q) == decodes_to(bytes@, i as nat, q));
                    }
                }
            }
            i = i + 1;
        }
        Code { bytes, valids }
    }

    pub fn len(&self) -> (r: usize)
        ensures
            r == self@.len(),
    {
        self.bytes.len()
    }

    pub fn bytes(&self) -> (r: &Vec<u8>)
        ensures
            r@ == self@,
    {
        &self.bytes
    }

    /// Whether `p` is a valid jump target.
    pub fn is_valid(&self, p: usize) -> (r: bool)
        requires
            self.wf(),
        ensures
            r == is_jump_target(self@, p as nat),
    {
        if p >= self.bytes.len() {
            false
        } else {
            self.valids[p]
        }
    }
}

} // verus!
