use vstd::prelude::*;
use vstd::string::StringSliceAdditionalSpecFns;
use crate::buffer_util::{Buffer, BUFFER_CAPACITY};

verus! {

/// The HTTP response head that is put in front of data sent to a client.
pub const DATA: &'static str = "HTTP/1.1 200 OK\r\nServer: nginx/1.14.2\r\nContent-Type: text/plain\r\nContent-Length: 70000000\r\nConnection: keep-alive\r\n\r\nhi";

/// The HTTP request head that a client puts in front of the data it sends.
pub const CLIENT_DATA: &'static str = "POST /momid HTTP/1.1\r\nHost: 146.70.145.152\r\nUser-Agent: Mozilla/5.0 (Linux; Android 10; Pixel 3) AppleWebKit/537.36 (KHTML, like Gecko) Chrome/91.0.4472.77 Mobile Safari/537.36\r\nContent-Type: text/plain\r\nContent-Length: 70000000\r\nConnection: keep-alive\r\n\r\nhi";

/// The bytes of [`DATA`].
pub open spec fn data_bytes() -> Seq<u8> {
    DATA.spec_bytes()
}

/// The bytes of [`CLIENT_DATA`].
pub open spec fn client_data_bytes() -> Seq<u8> {
    CLIENT_DATA.spec_bytes()
}

/// The two heads are plain ASCII, 119 and 258 bytes long.
pub proof fn lemma_head_lengths()
    ensures
        data_bytes().len() == 119,
        client_data_bytes().len() == 258,
{
    reveal_strlit("HTTP/1.1 200 OK\r\nServer: nginx/1.14.2\r\nContent-Type: text/plain\r\nContent-Length: 70000000\r\nConnection: keep-alive\r\n\r\nhi");
    reveal_strlit("POST /momid HTTP/1.1\r\nHost: 146.70.145.152\r\nUser-Agent: Mozilla/5.0 (Linux; Android 10; Pixel 3) AppleWebKit/537.36 (KHTML, like Gecko) Chrome/91.0.4472.77 Mobile Safari/537.36\r\nContent-Type: text/plain\r\nContent-Length: 70000000\r\nConnection: keep-alive\r\n\r\nhi");
    assert(vstd::string::is_ascii(DATA));
    assert(vstd::string::is_ascii(CLIENT_DATA));
}

/// The bytes of [`DATA`], with their count.
pub fn data_as_bytes() -> (bytes: &'static [u8])
    ensures
        bytes@ == data_bytes(),
        bytes@.len() == 119,
{
    proof {
        lemma_head_lengths();
    }
    DATA.as_bytes()
}

/// The number of bytes of [`CLIENT_DATA`].
pub fn client_data_len() -> (n: usize)
    ensures
        n == client_data_bytes().len(),
        n == 258,
{
    proof {
        lemma_head_lengths();
    }
    CLIENT_DATA.as_bytes().len()
}

/// Mutable access to the bytes of `bytes` from `start` on, through std's
/// `IndexMut<RangeFrom<usize>>` for slices (`&mut bytes[start..]`). Claimed, as
/// std documents it: the slice is the bytes from `start` on, it keeps its length,
/// what is written through it lands in those bytes and the bytes before `start`
/// stay as they were; the call does not panic when `start` is within the slice.
#[verifier::external_body]
fn suffix_mut(bytes: &mut [u8], start: usize) -> (suffix: &mut [u8])
    requires
        start <= old(bytes)@.len(),
    ensures
        suffix@ == old(bytes)@.skip(start as int),
        final(suffix)@.len() == old(bytes)@.len() - start,
        final(bytes)@ == old(bytes)@.take(start as int) + final(suffix)@,
{
    &mut bytes[start..]
}

/// What a client sends behind its request head is what `un_hide` gives back.
pub proof fn lemma_un_hide_strips_client_head(payload: Seq<u8>)
    ensures
        (client_data_bytes() + payload).skip(client_data_bytes().len() as int) == payload,
{
    assert((client_data_bytes() + payload).skip(client_data_bytes().len() as int) =~= payload);
}

pub trait Hide<'a> {
    /// The bytes this value stands for.
    spec fn hidden_bytes(&self) -> Seq<u8>;

    fn hide_in_buffer(&'a self, hide_buffer: &'a mut Buffer) -> (hidden: &'a mut [u8])
        requires
            data_bytes().len() + self.hidden_bytes().len() <= BUFFER_CAPACITY,
        ensures
            hidden@ == data_bytes() + self.hidden_bytes(),
            final(hide_buffer).wf(),
            final(hide_buffer).current_size == data_bytes().len() + self.hidden_bytes().len(),
            final(hide_buffer)@ == final(hidden)@,
            final(hide_buffer).buffer@.skip((data_bytes().len() + self.hidden_bytes().len()) as int) == old(
                hide_buffer,
            ).buffer@.skip((data_bytes().len() + self.hidden_bytes().len()) as int),
    ;

    fn un_hide(&mut self) -> (shown: &mut [u8])
        requires
            client_data_bytes().len() <= old(self).hidden_bytes().len(),
        ensures
            shown@ == old(self).hidden_bytes().skip(client_data_bytes().len() as int),
            final(self).hidden_bytes() == old(self).hidden_bytes().take(
                client_data_bytes().len() as int,
            ) + final(shown)@,
    ;
}

impl<'a> Hide<'a> for &'a mut [u8] {
    open spec fn hidden_bytes(&self) -> Seq<u8> {
        (**self)@
    }

    fn hide_in_buffer(&'a self, hide_buffer: &'a mut Buffer) -> (hidden: &'a mut [u8]) {
        hide_buffer.put(data_as_bytes());
        hide_buffer.append(&**self);
        hide_buffer.get()
    }

    fn un_hide(&mut self) -> (shown: &mut [u8]) {
        let start = client_data_len();
        let inner: &mut [u8] = *self;
        suffix_mut(inner, start)
    }
}

pub trait HideImmutable<'a> {
    /// The bytes this value stands for.
    spec fn hidden_bytes(&self) -> Seq<u8>;

    fn hide_in_buffer(&'a self, hide_buffer: &'a mut Buffer) -> (hidden: &'a mut [u8])
        requires
            data_bytes().len() + self.hidden_bytes().len() <= BUFFER_CAPACITY,
        ensures
            hidden@ == data_bytes() + self.hidden_bytes(),
            final(hide_buffer).wf(),
            final(hide_buffer).current_size == data_bytes().len() + self.hidden_bytes().len(),
            final(hide_buffer)@ == final(hidden)@,
            final(hide_buffer).buffer@.skip((data_bytes().len() + self.hidden_bytes().len()) as int) == old(
                hide_buffer,
            ).buffer@.skip((data_bytes().len() + self.hidden_bytes().len()) as int),
    ;

    fn un_hide(&self) -> (shown: &[u8])
        requires
            client_data_bytes().len() <= self.hidden_bytes().len(),
        ensures
            shown@ == self.hidden_bytes().skip(client_data_bytes().len() as int),
    ;
}

impl<'a> HideImmutable<'a> for &'a [u8] {
    open spec fn hidden_bytes(&self) -> Seq<u8> {
        (**self)@
    }

    fn hide_in_buffer(&'a self, hide_buffer: &'a mut Buffer) -> (hidden: &'a mut [u8]) {
        hide_buffer.put(data_as_bytes());
        hide_buffer.append(*self);
        hide_buffer.get()
    }

    fn un_hide(&self) -> (shown: &[u8]) {
        let start = client_data_len();
        &self[start..self.len()]
    }
}

} // verus!
