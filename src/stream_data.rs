use vstd::prelude::*;

verus! {

/// The peer address of a connection: its IP octets (4 for IPv4, 16 for IPv6)
/// and its port.
#[derive(Debug)]
pub struct PeerAddr {
    pub ip: Vec<u8>,
    pub port: u16,
}

impl PeerAddr {
    /// The unspecified address `0.0.0.0:0`.
    pub fn unspecified() -> (r: PeerAddr)
        ensures
            r.ip@ == seq![0u8, 0u8, 0u8, 0u8],
            r.port == 0,
    {
        PeerAddr { ip: vec![0u8, 0u8, 0u8, 0u8], port: 0 }
    }

    pub fn copy(&self) -> (r: PeerAddr)
        ensures
            r.ip@ == self.ip@,
            r.port == self.port,
    {
        PeerAddr { ip: self.ip.clone(), port: self.port }
    }
}

/// The buffers of one connection: bytes received and waiting to be decoded,
/// bytes produced and waiting to be sent, and the peer's address.
pub struct StreamData {
    pub reader: Vec<u8>,
    pub writer: Vec<u8>,
    pub remote_addr: PeerAddr,
}

impl StreamData {
    pub fn new(reader: Vec<u8>, writer: Vec<u8>) -> (r: StreamData)
        ensures
            r.reader@ == reader@,
            r.writer@ == writer@,
            r.remote_addr.ip@ == seq![0u8, 0u8, 0u8, 0u8],
            r.remote_addr.port == 0,
    {
        StreamData { reader, writer, remote_addr: PeerAddr::unspecified() }
    }

    pub fn remote_addr(&self) -> (r: PeerAddr)
        ensures
            r.ip@ == self.remote_addr.ip@,
            r.port == self.remote_addr.port,
    {
        self.remote_addr.copy()
    }

    /// Moves up to `max` bytes from the front of the read buffer into `buf`
    /// and returns how many were moved.
    pub fn read(&mut self, buf: &mut Vec<u8>, max: usize) -> (amt: usize)
        ensures
            amt == if max < old(self).reader@.len() { max as int } else { old(self).reader@.len() as int },
            final(buf)@ == old(buf)@ + old(self).reader@.subrange(0, amt as int),
            final(self).reader@ == old(self).reader@.subrange(amt as int, old(self).reader@.len() as int),
            final(self).writer@ == old(self).writer@,
            final(self).remote_addr == old(self).remote_addr,
    {
        let amt: usize = if max < self.reader.len() { max } else { self.reader.len() };
        let rest = self.reader.split_off(amt);
        buf.append(&mut self.reader);
        self.reader = rest;
        amt
    }

    /// Appends `data` to the write buffer; all of it is taken.
    pub fn write(&mut self, data: &[u8]) -> (n: usize)
        ensures
            n == data@.len(),
            final(self).writer@ == old(self).writer@ + data@,
            final(self).reader@ == old(self).reader@,
            final(self).remote_addr == old(self).remote_addr,
    {
        self.writer.extend_from_slice(data);
        data.len()
    }

    /// Nothing is held back between `write` and the buffer, so this does nothing.
    pub fn flush(&mut self)
        ensures
            *final(self) == *old(self),
    {
    }
}

} // verus!
