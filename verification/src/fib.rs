use vstd::prelude::*;

verus! {

/// The Fibonacci numbers used as the Zeckendorf basis: 1, 2, 3, 5, 8, ...
/// (`fib(i)` is the (i+2)-th Fibonacci number).
pub open spec fn fib(i: nat) -> nat
    decreases i,
{
    if i == 0 {
        1
    } else if i == 1 {
        2
    } else {
        fib((i - 1) as nat) + fib((i - 2) as nat)
    }
}

/// The basis elements around the ends of the tables of this crate: `fib(91)`
/// is the largest that fits in a `u64`.
pub proof fn lemma_fib_values()
    ensures
        fib(93) == 31940434634990099905,
        fib(92) == 19740274219868223167,
        fib(91) == 12200160415121876738,
        fib(25) == 196418,
        fib(24) == 121393,
        fib(23) == 75025,
{
    assert(fib(0) == 1);
    assert(fib(1) == 2);
    assert(fib(2) == 3);
    assert(fib(3) == 5);
    assert(fib(4) == 8);
    assert(fib(5) == 13);
    assert(fib(6) == 21);
    assert(fib(7) == 34);
    assert(fib(8) == 55);
    assert(fib(9) == 89);
    assert(fib(10) == 144);
    assert(fib(11) == 233);
    assert(fib(12) == 377);
    assert(fib(13) == 610);
    assert(fib(14) == 987);
    assert(fib(15) == 1597);
    assert(fib(16) == 2584);
    assert(fib(17) == 4181);
    assert(fib(18) == 6765);
    assert(fib(19) == 10946);
    assert(fib(20) == 17711);
    assert(fib(21) == 28657);
    assert(fib(22) == 46368);
    assert(fib(23) == 75025);
    assert(fib(24) == 121393);
    assert(fib(25) == 196418);
    assert(fib(26) == 317811);
    assert(fib(27) == 514229);
    assert(fib(28) == 832040);
    assert(fib(29) == 1346269);
    assert(fib(30) == 2178309);
    assert(fib(31) == 3524578);
    assert(fib(32) == 5702887);
    assert(fib(33) == 9227465);
    assert(fib(34) == 14930352);
    assert(fib(35) == 24157817);
    assert(fib(36) == 39088169);
    assert(fib(37) == 63245986);
    assert(fib(38) == 102334155);
    assert(fib(39) == 165580141);
    assert(fib(40) == 267914296);
    assert(fib(41) == 433494437);
    assert(fib(42) == 701408733);
    assert(fib(43) == 1134903170);
    assert(fib(44) == 1836311903);
    assert(fib(45) == 2971215073);
    assert(fib(46) == 4807526976);
    assert(fib(47) == 7778742049);
    assert(fib(48) == 12586269025);
    assert(fib(49) == 20365011074);
    assert(fib(50) == 32951280099);
    assert(fib(51) == 53316291173);
    assert(fib(52) == 86267571272);
    assert(fib(53) == 139583862445);
    assert(fib(54) == 225851433717);
    assert(fib(55) == 365435296162);
    assert(fib(56) == 591286729879);
    assert(fib(57) == 956722026041);
    assert(fib(58) == 1548008755920);
    assert(fib(59) == 2504730781961);
    assert(fib(60) == 4052739537881);
    assert(fib(61) == 6557470319842);
    assert(fib(62) == 10610209857723);
    assert(fib(63) == 17167680177565);
    assert(fib(64) == 27777890035288);
    assert(fib(65) == 44945570212853);
    assert(fib(66) == 72723460248141);
    assert(fib(67) == 117669030460994);
    assert(fib(68) == 190392490709135);
    assert(fib(69) == 308061521170129);
    assert(fib(70) == 498454011879264);
    assert(fib(71) == 806515533049393);
    assert(fib(72) == 1304969544928657);
    assert(fib(73) == 2111485077978050);
    assert(fib(74) == 3416454622906707);
    assert(fib(75) == 5527939700884757);
    assert(fib(76) == 8944394323791464);
    assert(fib(77) == 14472334024676221);
    assert(fib(78) == 23416728348467685);
    assert(fib(79) == 37889062373143906);
    assert(fib(80) == 61305790721611591);
    assert(fib(81) == 99194853094755497);
    assert(fib(82) == 160500643816367088);
    assert(fib(83) == 259695496911122585);
    assert(fib(84) == 420196140727489673);
    assert(fib(85) == 679891637638612258);
    assert(fib(86) == 1100087778366101931);
    assert(fib(87) == 1779979416004714189);
    assert(fib(88) == 2880067194370816120);
    assert(fib(89) == 4660046610375530309);
    assert(fib(90) == 7540113804746346429);
    assert(fib(91) == 12200160415121876738);
    assert(fib(92) == 19740274219868223167);
    assert(fib(93) == 31940434634990099905);
}


pub proof fn lemma_fib_pos(i: nat)
    ensures
        fib(i) >= 1,
    decreases i,
{
    if i >= 2 {
        lemma_fib_pos((i - 1) as nat);
        lemma_fib_pos((i - 2) as nat);
    }
}

/// Each basis element is larger than the one before it.
pub proof fn lemma_fib_step(i: nat)
    ensures
        fib(i) < fib(i + 1),
{
    if i >= 1 {
        lemma_fib_pos((i - 1) as nat);
    }
}

pub proof fn lemma_fib_monotone(i: nat, j: nat)
    requires
        i <= j,
    ensures
        fib(i) <= fib(j),
        i < j ==> fib(i) < fib(j),
    decreases j - i,
{
    if i < j {
        lemma_fib_monotone(i, (j - 1) as nat);
        lemma_fib_step((j - 1) as nat);
    }
}

/// The table of the first `len` basis elements.
pub fn fib_table(len: usize) -> (t: Vec<u64>)
    requires
        len <= 92,
    ensures
        t@.len() == len,
        forall|i: int| 0 <= i < len ==> t@[i] == fib(i as nat),
{
    proof {
        lemma_fib_values();
    }
    let mut t: Vec<u64> = Vec::new();
    let mut i: usize = 0;
    while i < len
        invariant
            i <= len <= 92,
            t@.len() == i,
            forall|j: int| 0 <= j < i ==> t@[j] == fib(j as nat),
            fib(91) == 12200160415121876738,
        decreases len - i,
    {
        if i == 0 {
            t.push(1);
        } else if i == 1 {
            t.push(2);
        } else {
            proof {
                lemma_fib_monotone(i as nat, 91);
            }
            let next = t[i - 1] + t[i - 2];
            t.push(next);
        }
        i = i + 1;
    }
    t
}

} // verus!
