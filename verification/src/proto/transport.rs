//! Byte transport abstraction: real serial ports in production, scripted
//! in-memory pipes in tests.

use vstd::prelude::*;
use std::collections::VecDeque;
use vstd::std_specs::convert::IntoSpec;

verus! {

pub trait Transport {
    fn write_all(&mut self, buf: &[u8]) -> std::io::Result<()>;

    /// Read whatever is available, blocking up to the transport's timeout.
    /// `Ok(0)` means the timeout elapsed with no data (not EOF). The bytes
    /// read are the first `n` of `buf`.
    fn read(&mut self, buf: &mut [u8]) -> (r: std::io::Result<usize>)
        ensures
            final(buf)@.len() == old(buf)@.len(),
            r matches Ok(n) ==> n <= old(buf)@.len(),
    ;

    /// Discard any pending input (after a CRC error, so the next response
    /// starts on a clean boundary).
    fn flush_input(&mut self) -> std::io::Result<()>;
}

/// The byte strings of a queue of buffers.
pub open spec fn chunks_view(q: Seq<Vec<u8>>) -> Seq<Seq<u8>> {
    q.map_values(|v: Vec<u8>| v@)
}

/// Scripted transport for tests: `write_all` records what was sent, `read`
/// replays queued responses.
pub struct MockTransport {
    pub sent: Vec<Vec<u8>>,
    pub responses: VecDeque<Vec<u8>>,
}

impl MockTransport {
    pub fn new() -> (m: Self)
        ensures
            m.sent@.len() == 0,
            m.responses@.len() == 0,
    {
        MockTransport { sent: Vec::new(), responses: VecDeque::new() }
    }

    /// Queue one response; the last queued is read last.
    pub fn queue<R: Into<Vec<u8>>>(&mut self, response: R)
        ensures
            final(self).sent@ == old(self).sent@,
            final(self).responses@.len() == old(self).responses@.len() + 1,
            final(self).responses@.drop_last() == old(self).responses@,
            <R as IntoSpec<Vec<u8>>>::obeys_into_spec()
                ==> final(self).responses@.last() == response.into_spec(),
    {
        let v: Vec<u8> = response.into();
        self.responses.push_back(v);
        assert(self.responses@.drop_last() =~= old(self).responses@);
    }
}

impl Transport for MockTransport {
    fn write_all(&mut self, buf: &[u8]) -> (r: std::io::Result<()>)
        ensures
            r is Ok,
            chunks_view(final(self).sent@) == chunks_view(old(self).sent@).push(buf@),
            final(self).responses@ == old(self).responses@,
    {
        let mut v: Vec<u8> = Vec::new();
        crate::bytes::push_all(&mut v, buf);
        self.sent.push(v);
        assert(chunks_view(self.sent@) =~= chunks_view(old(self).sent@).push(buf@));
        Ok(())
    }

    fn read(&mut self, buf: &mut [u8]) -> (r: std::io::Result<usize>)
        ensures
            final(buf)@.len() == old(buf)@.len(),
            final(self).sent@ == old(self).sent@,
            old(self).responses@.len() == 0 ==> (r matches Ok(k) && k == 0 && final(self).responses@ == old(self).responses@),
            old(self).responses@.len() > 0 ==> ({
                let front = old(self).responses@[0]@;
                let n = if front.len() < old(buf)@.len() { front.len() } else { old(buf)@.len() };
                &&& r matches Ok(k) && k == n
                &&& final(buf)@.take(n as int) == front.take(n as int)
                &&& final(buf)@.skip(n as int) == old(buf)@.skip(n as int)
                &&& chunks_view(final(self).responses@) == if n < front.len() {
                    chunks_view(old(self).responses@).update(0, front.skip(n as int))
                } else {
                    chunks_view(old(self).responses@).drop_first()
                }
            }),
    {
        match self.responses.pop_front() {
            Some(mut r) => {
                let n = if r.len() < buf.len() { r.len() } else { buf.len() };
                let mut i: usize = 0;
                while i < n
                    invariant
                        n <= r@.len(),
                        n <= buf@.len(),
                        i <= n,
                        buf@.len() == old(buf)@.len(),
                        buf@.take(i as int) == r@.take(i as int),
                        buf@.skip(n as int) == old(buf)@.skip(n as int),
                    decreases n - i,
                {
                    buf[i] = r[i];
                    i = i + 1;
                    assert(buf@.take(i as int) =~= r@.take(i as int));
                    assert(buf@.skip(n as int) =~= old(buf)@.skip(n as int));
                }
                if n < r.len() {
                    let rest = r.split_off(n);
                    self.responses.push_front(rest);
                    assert(chunks_view(self.responses@) =~= chunks_view(old(self).responses@).update(0, old(self).responses@[0]@.skip(n as int)));
                } else {
                    assert(chunks_view(self.responses@) =~= chunks_view(old(self).responses@).drop_first());
                }
                Ok(n)
            },
            None => Ok(0),
        }
    }

    fn flush_input(&mut self) -> (r: std::io::Result<()>)
        ensures
            r is Ok,
            final(self).sent@ == old(self).sent@,
            final(self).responses@.len() == 0,
    {
        self.responses.clear();
        Ok(())
    }
}

} // verus!
