use vstd::prelude::*;

verus! {

/// Items handed out one at a time from the front.
pub struct Stream<T> {
    items: Vec<T>,
    pos: usize,
}

impl<T> View for Stream<T> {
    type V = Seq<T>;

    /// The items not yet handed out.
    closed spec fn view(&self) -> Seq<T> {
        self.items@.skip(self.pos as int)
    }
}

impl<T> Stream<T> {
    #[verifier::type_invariant]
    spec fn well_formed(self) -> bool {
        self.pos <= self.items@.len()
    }
}

impl<T: Copy> Stream<T> {
    /// A stream that hands out `items` in order.
    pub fn new(items: Vec<T>) -> (s: Self)
        ensures
            s@ == items@,
    {
        let s = Stream { items, pos: 0 };
        assert(s.items@.skip(0) =~= s.items@);
        s
    }

    /// The next item, or `None` once all are handed out.
    pub fn next(&mut self) -> (r: Option<T>)
        ensures
            old(self)@.len() == 0 ==> r is None && final(self)@ == old(self)@,
            old(self)@.len() > 0 ==> r == Some(old(self)@[0]) && final(self)@ == old(
                self,
            )@.drop_first(),
    {
        proof {
            use_type_invariant(&*self);
        }
        if self.pos < self.items.len() {
            let x = self.items[self.pos];
            self.pos = self.pos + 1;
            assert(self.items@.skip(self.pos as int) =~= old(self)@.drop_first());
            Some(x)
        } else {
            None
        }
    }
}

/// Reads the next `N` items into an array.
pub fn read_n_const<T: Default + Copy, const N: usize>(stream: &mut Stream<T>) -> (output: [T; N])
    requires
        old(stream)@.len() >= N,
    ensures
        output@ == old(stream)@.take(N as int),
        final(stream)@ == old(stream)@.skip(N as int),
{
    let mut output = [T::default(); N];
    let mut i: usize = 0;
    while i < N
        invariant
            i <= N,
            old(stream)@.len() >= N,
            stream@ == old(stream)@.skip(i as int),
            output@.take(i as int) == old(stream)@.take(i as int),
        decreases N - i,
    {
        let ghost before = stream@;
        let x = stream.next().unwrap();
        let ghost prev = output@;
        output[i] = x;
        assert(output@.take(i + 1) =~= prev.take(i as int).push(x));
        assert(old(stream)@.take(i + 1) =~= old(stream)@.take(i as int).push(x));
        assert(before.drop_first() =~= old(stream)@.skip(i + 1));
        i += 1;
    }
    assert(output@.take(N as int) =~= output@);
    output
}

/// Reads the next `n` items into a vector.
pub fn read_n<T: Default + Copy>(stream: &mut Stream<T>, n: u32) -> (o: Vec<T>)
    requires
        old(stream)@.len() >= n,
    ensures
        o@ == old(stream)@.take(n as int),
        final(stream)@ == old(stream)@.skip(n as int),
{
    let mut o = Vec::new();
    let mut i: u32 = 0;
    while i < n
        invariant
            i <= n,
            old(stream)@.len() >= n,
            stream@ == old(stream)@.skip(i as int),
            o@ == old(stream)@.take(i as int),
        decreases n - i,
    {
        let ghost before = stream@;
        o.push(stream.next().unwrap());
        assert(old(stream)@.take(i + 1) =~= old(stream)@.take(i as int).push(before[0]));
        assert(before.drop_first() =~= old(stream)@.skip(i + 1));
        i += 1;
    }
    o
}

} // verus!
