//! Talking to the process that runs the network, and what a network on the device is made with.
//!
//! Everything that is sent is framed: four bytes with the length of what follows, the lowest
//! first, and then so many bytes.
use crate::value::Single;
use vstd::prelude::*;
use vstd::string::*;

verus! {

/// The four bytes of a number, the lowest first.
pub open spec fn le_bytes(n: u32) -> Seq<u8> {
    seq![
        (n % 0x100) as u8,
        (n / 0x100 % 0x100) as u8,
        (n / 0x1_0000 % 0x100) as u8,
        (n / 0x100_0000) as u8,
    ]
}

/// The number that four bytes stand for.
pub open spec fn le_number(b: Seq<u8>) -> u32 {
    (b[0] + b[1] * 0x100 + b[2] * 0x1_0000 + b[3] * 0x100_0000) as u32
}

/// What is sent for some bytes.
pub open spec fn frame(data: Seq<u8>) -> Seq<u8> {
    le_bytes(data.len() as u32) + data
}

/// What is sent and read by its bytes, which are as many for every value.
pub trait Element: Copy {
    /// The number of bytes.
    spec fn size() -> nat;

    /// The bytes of a value.
    spec fn bytes(self) -> Seq<u8>;

    /// The value that bytes stand for.
    spec fn of_bytes(b: Seq<u8>) -> Self;

    /// A value has so many bytes, and they stand for it.
    proof fn lemma_bytes(self)
        ensures
            self.bytes().len() == Self::size(),
            Self::of_bytes(self.bytes()) == self,
    ;

    fn byte_size() -> (n: usize)
        ensures
            n == Self::size(),
    ;

    fn push_bytes(self, out: &mut Vec<u8>)
        ensures
            final(out)@ == old(out)@ + self.bytes(),
    ;

    fn read_bytes(data: &Vec<u8>, at: usize) -> (r: Self)
        requires
            at + Self::size() <= data.len(),
        ensures
            r == Self::of_bytes(data@.subrange(at as int, at + Self::size())),
    ;
}

/// Four bytes stand for the number that they were made from, and every four bytes for some
/// number.
pub proof fn law_numbers_are_read_back(n: u32, b: Seq<u8>)
    ensures
        le_number(le_bytes(n)) == n,
        b.len() == 4 ==> le_bytes(le_number(b)) == b,
{
    let (b0, b1, b2, b3) = (
        n % 0x100,
        n / 0x100 % 0x100,
        n / 0x1_0000 % 0x100,
        n / 0x100_0000,
    );
    assert(n == b0 + b1 * 0x100 + b2 * 0x1_0000 + b3 * 0x100_0000);
    if b.len() == 4 {
        let m = le_number(b);
        assert(m == b[0] + b[1] * 0x100 + b[2] * 0x1_0000 + b[3] * 0x100_0000);
        assert(m % 0x100 == b[0]);
        assert(m / 0x100 == b[1] + b[2] * 0x100 + b[3] * 0x1_0000);
        assert(m / 0x1_0000 == b[2] + b[3] * 0x100);
        assert(m / 0x100_0000 == b[3]);
        assert(le_bytes(m) =~= b);
    }
}

/// The low bytes come first: where a number has a byte more at its low end, that byte stands
/// before the others. A number with 32 bits has the bytes of its bits.
pub proof fn law_low_bytes_come_first(high: u32, low: u8)
    requires
        high < 0x100_0000,
    ensures
        ({
            let n = (high * 0x100 + low) as u32;
            &&& le_bytes(n) == seq![low] + le_bytes(high).take(3)
            &&& n.bytes() == le_bytes(n)
            &&& Single { bits: n }.bytes() == n.bytes()
        }),
{
    let n = (high * 0x100 + low) as u32;
    assert(n % 0x100 == low);
    assert(n / 0x100 == high);
    assert(n / 0x1_0000 == high / 0x100);
    assert(n / 0x100_0000 == high / 0x1_0000);
    assert(le_bytes(n) =~= seq![low] + le_bytes(high).take(3));
}

impl Element for u8 {
    open spec fn size() -> nat {
        1
    }

    open spec fn bytes(self) -> Seq<u8> {
        seq![self]
    }

    open spec fn of_bytes(b: Seq<u8>) -> u8 {
        b[0]
    }

    proof fn lemma_bytes(self) {
    }

    fn byte_size() -> (n: usize) {
        1
    }

    fn push_bytes(self, out: &mut Vec<u8>) {
        out.push(self);
        assert(out@ =~= old(out)@ + seq![self]);
    }

    fn read_bytes(data: &Vec<u8>, at: usize) -> (r: u8) {
        data[at]
    }
}

impl Element for u32 {
    open spec fn size() -> nat {
        4
    }

    open spec fn bytes(self) -> Seq<u8> {
        le_bytes(self)
    }

    open spec fn of_bytes(b: Seq<u8>) -> u32 {
        le_number(b)
    }

    proof fn lemma_bytes(self) {
        law_numbers_are_read_back(self, Seq::empty());
    }

    fn byte_size() -> (n: usize) {
        4
    }

    fn push_bytes(self, out: &mut Vec<u8>) {
        out.push((self % 0x100) as u8);
        out.push((self / 0x100 % 0x100) as u8);
        out.push((self / 0x1_0000 % 0x100) as u8);
        out.push((self / 0x100_0000) as u8);
        assert(out@ =~= old(out)@ + le_bytes(self));
    }

    fn read_bytes(data: &Vec<u8>, at: usize) -> (n: u32) {
        let b0: u32 = data[at] as u32;
        let b1: u32 = data[at + 1] as u32;
        let b2: u32 = data[at + 2] as u32;
        let b3: u32 = data[at + 3] as u32;
        b0 + b1 * 0x100 + b2 * 0x1_0000 + b3 * 0x100_0000
    }
}

impl Element for Single {
    open spec fn size() -> nat {
        4
    }

    open spec fn bytes(self) -> Seq<u8> {
        le_bytes(self.bits)
    }

    open spec fn of_bytes(b: Seq<u8>) -> Single {
        Single { bits: le_number(b) }
    }

    proof fn lemma_bytes(self) {
        law_numbers_are_read_back(self.bits, Seq::empty());
    }

    fn byte_size() -> (n: usize) {
        4
    }

    fn push_bytes(self, out: &mut Vec<u8>) {
        self.bits.push_bytes(out);
    }

    fn read_bytes(data: &Vec<u8>, at: usize) -> (r: Single) {
        Single { bits: u32::read_bytes(data, at) }
    }
}

/// The bytes of elements, one after the other.
pub open spec fn bytes_of<T: Element>(data: Seq<T>) -> Seq<u8>
    decreases data.len(),
{
    if data.len() == 0 {
        Seq::empty()
    } else {
        bytes_of(data.drop_last()) + data.last().bytes()
    }
}

/// The bytes of element number `i`.
pub open spec fn element_bytes(data: Seq<u8>, size: nat, i: int) -> Seq<u8> {
    data.subrange(i * size, i * size + size)
}

/// The first `n` elements whose bytes these are.
pub open spec fn elements_of<T: Element>(data: Seq<u8>, n: nat) -> Seq<T> {
    Seq::new(n, |i: int| T::of_bytes(element_bytes(data, T::size(), i)))
}

proof fn lemma_bytes_len<T: Element>(data: Seq<T>)
    ensures
        bytes_of(data).len() == data.len() * T::size(),
    decreases data.len(),
{
    let (n, k) = (data.len() as int, T::size() as int);
    if data.len() > 0 {
        lemma_bytes_len(data.drop_last());
        data.last().lemma_bytes();
        assert((n - 1) * k + k == n * k) by (nonlinear_arith);
    } else {
        assert(0 * k == 0) by (nonlinear_arith);
    }
}

/// Bytes are sent as they are.
proof fn lemma_bytes_of_bytes(data: Seq<u8>)
    ensures
        bytes_of(data) == data,
    decreases data.len(),
{
    if data.len() > 0 {
        lemma_bytes_of_bytes(data.drop_last());
    }
    assert(bytes_of(data) =~= data);
}

/// An element lies before the end.
proof fn lemma_element_fits(i: int, n: int, k: int)
    requires
        0 <= i < n,
        k >= 0,
    ensures
        0 <= i * k,
        i * k + k <= n * k,
{
    assert(0 <= i * k && i * k + k <= n * k) by (nonlinear_arith)
        requires
            0 <= i < n,
            k >= 0,
    ;
}

/// The bytes of elements, one after the other.
pub fn encode<T: Element>(data: &Vec<T>) -> (out: Vec<u8>)
    ensures
        out@ == bytes_of(data@),
{
    let mut out: Vec<u8> = Vec::new();
    let mut i: usize = 0;
    while i < data.len()
        invariant
            i <= data.len(),
            out@ == bytes_of(data@.take(i as int)),
        decreases data.len() - i,
    {
        data[i].push_bytes(&mut out);
        assert(data@.take(i + 1).drop_last() =~= data@.take(i as int));
        i += 1;
    }
    assert(data@.take(i as int) =~= data@);
    out
}

/// The `n` elements whose bytes these are.
pub fn decode<T: Element>(data: &Vec<u8>, n: usize) -> (out: Vec<T>)
    requires
        data.len() == n * T::size(),
    ensures
        out@ == elements_of::<T>(data@, n as nat),
{
    let mut out: Vec<T> = Vec::new();
    let size: usize = T::byte_size();
    let mut i: usize = 0;
    while i < n
        invariant
            i <= n,
            size == T::size(),
            data.len() == n * T::size(),
            out@ == elements_of::<T>(data@, i as nat),
        decreases n - i,
    {
        proof {
            lemma_element_fits(i as int, n as int, T::size() as int);
        }
        out.push(T::read_bytes(data, i * size));
        i += 1;
        assert(out@ =~= elements_of::<T>(data@, i as nat));
    }
    out
}

/// What is read is what was written.
pub proof fn law_data_is_read_back<T: Element>(data: Seq<T>)
    ensures
        elements_of::<T>(bytes_of(data), data.len()) == data,
    decreases data.len(),
{
    let k = T::size();
    let all = elements_of::<T>(bytes_of(data), data.len());
    if data.len() > 0 {
        let fewer = data.drop_last();
        let last = data.last();
        law_data_is_read_back(fewer);
        lemma_bytes_len(fewer);
        last.lemma_bytes();
        let (b, c) = (bytes_of(fewer), bytes_of(data));
        assert forall|i: int| 0 <= i < data.len() implies #[trigger] all[i] == data[i] by {
            if i < fewer.len() {
                lemma_element_fits(i, fewer.len() as int, k as int);
                assert(element_bytes(c, k, i) =~= element_bytes(b, k, i));
                assert(elements_of::<T>(b, fewer.len())[i] == fewer[i]);
            } else {
                assert(element_bytes(c, k, i) =~= last.bytes());
            }
        }
    }
    assert(all =~= data);
}

/// A process that runs the network, as far as it is spoken to.
#[derive(Debug)]
pub struct NRCProcess {
    pub n_input_dim: usize,
    pub n_output_dim: usize,
}

/// The rows of a table of numbers fill it, and there are `rows` of them.
pub open spec fn has_rows(len: nat, dim: usize, rows: int) -> bool {
    len == rows * dim
}

/// The number of rows of the inputs.
pub open spec fn rows_of(len: nat, dim: usize) -> int {
    len as int / dim as int
}

/// What is sent to make a network.
pub open spec fn init_request(config: Seq<u8>) -> Seq<u8> {
    frame("init".spec_bytes()) + frame(config)
}

/// What is sent to train the network.
pub open spec fn train_request(input: Seq<Single>, target: Seq<Single>) -> Seq<u8> {
    frame("train".spec_bytes()) + frame(bytes_of(input)) + frame(bytes_of(target))
}

/// What is sent to ask the network about inputs.
pub open spec fn inference_request(input: Seq<Single>) -> Seq<u8> {
    frame("inference".spec_bytes()) + frame(bytes_of(input))
}

/// What is sent to ask the network.
#[derive(Debug)]
pub struct Inference {
    pub request: Vec<u8>,
    /// The number of numbers that the answer has.
    pub expected_length: usize,
}

impl NRCProcess {
    pub fn connect(n_input_dim: usize, n_output_dim: usize) -> (r: Self)
        ensures
            r.n_input_dim == n_input_dim,
            r.n_output_dim == n_output_dim,
    {
        NRCProcess { n_input_dim, n_output_dim }
    }

    /// What is sent for a string.
    pub fn write_string(&self, s: &str) -> (out: Vec<u8>)
        requires
            s.spec_bytes().len() <= u32::MAX,
        ensures
            out@ == frame(s.spec_bytes()),
    {
        let bytes = s.as_bytes_vec();
        proof {
            lemma_bytes_of_bytes(bytes@);
        }
        self.write_data(&bytes)
    }

    /// What is sent for some elements.
    pub fn write_data<T: Element>(&self, data: &Vec<T>) -> (out: Vec<u8>)
        requires
            data.len() * T::size() <= u32::MAX,
        ensures
            out@ == frame(bytes_of(data@)),
    {
        proof {
            lemma_bytes_len(data@);
        }
        let mut body = encode(data);
        let length: u32 = body.len() as u32;
        let mut out: Vec<u8> = Vec::new();
        length.push_bytes(&mut out);
        out.append(&mut body);
        assert(out@ =~= frame(bytes_of(data@)));
        out
    }

    /// The number of bytes that follow the header of an answer, where they are as many as
    /// `expected_length` elements take.
    pub fn read_header<T: Element>(&self, header: &Vec<u8>, expected_length: usize) -> (r: Option<
        u32,
    >)
        requires
            header.len() == 4,
        ensures
            r == (if le_number(header@) == expected_length * T::size() {
                Some(le_number(header@))
            } else {
                None
            }),
    {
        assert(header@.subrange(0, 4) =~= header@);
        let actual_length: u32 = u32::read_bytes(header, 0);
        let size: usize = T::byte_size();
        assert(expected_length * size <= 0xffff_ffff_ffff_ffff * 0xffff_ffff_ffff_ffff)
            by (nonlinear_arith)
            requires
                expected_length <= 0xffff_ffff_ffff_ffff,
                size <= 0xffff_ffff_ffff_ffff,
        ;
        if actual_length as u128 == expected_length as u128 * size as u128 {
            Some(actual_length)
        } else {
            None
        }
    }

    /// The elements of an answer, where its header says that there are as many as expected. The
    /// body has as many bytes as the header says.
    pub fn read_data<T: Element>(
        &self,
        header: &Vec<u8>,
        body: &Vec<u8>,
        expected_length: usize,
    ) -> (r: Option<Vec<T>>)
        requires
            header.len() == 4,
            le_number(header@) == expected_length * T::size() ==> body.len() == le_number(header@),
        ensures
            r is Some <==> le_number(header@) == expected_length * T::size(),
            r matches Some(data) ==> data@ == elements_of::<T>(body@, expected_length as nat),
    {
        match self.read_header::<T>(header, expected_length) {
            Some(_) => Some(decode(body, expected_length)),
            None => None,
        }
    }

    /// What is sent to make the network.
    pub fn init(&self, config: &str) -> (out: Vec<u8>)
        requires
            config.spec_bytes().len() <= u32::MAX,
        ensures
            out@ == init_request(config.spec_bytes()),
    {
        proof {
            reveal_strlit("init");
            assert("init".is_ascii());
        }
        let mut out = self.write_string("init");
        let mut rest = self.write_string(config);
        out.append(&mut rest);
        out
    }

    /// What is sent to train the network; nothing where the inputs or the targets are not whole
    /// rows, or not as many.
    pub fn train(&self, input: &Vec<Single>, target: &Vec<Single>) -> (r: Option<Vec<u8>>)
        requires
            self.n_input_dim > 0,
            input.len() * 4 <= u32::MAX,
            target.len() * 4 <= u32::MAX,
        ensures
            r is Some <==> {
                let rows = rows_of(input@.len(), self.n_input_dim);
                &&& has_rows(input@.len(), self.n_input_dim, rows)
                &&& has_rows(target@.len(), self.n_output_dim, rows)
            },
            r matches Some(out) ==> out@ == train_request(input@, target@),
    {
        if !self.is_rows(input.len(), target.len(), true) {
            return None;
        }
        proof {
            reveal_strlit("train");
            assert("train".is_ascii());
        }
        let mut out = self.write_string("train");
        let mut inputs = self.write_data(input);
        let mut targets = self.write_data(target);
        out.append(&mut inputs);
        out.append(&mut targets);
        Some(out)
    }

    /// The inputs are whole rows, and so are the outputs, and there are as many where that is
    /// asked.
    fn is_rows(&self, inputs: usize, outputs: usize, with_outputs: bool) -> (r: bool)
        requires
            self.n_input_dim > 0,
        ensures
            r == ({
                let rows = rows_of(inputs as nat, self.n_input_dim);
                &&& has_rows(inputs as nat, self.n_input_dim, rows)
                &&& with_outputs ==> has_rows(outputs as nat, self.n_output_dim, rows)
            }),
    {
        let rows: usize = inputs / self.n_input_dim;
        proof {
            let (i, d) = (inputs as int, self.n_input_dim as int);
            vstd::arithmetic::div_mod::lemma_fundamental_div_mod(i, d);
            assert(d * (i / d) == (i / d) * d) by (nonlinear_arith);
        }
        if inputs % self.n_input_dim != 0 {
            return false;
        }
        if !with_outputs {
            return true;
        }
        match rows.checked_mul(self.n_output_dim) {
            Some(n) => n == outputs,
            None => false,
        }
    }

    /// What is sent to ask the network, and how long the answer is; nothing where the inputs are
    /// not whole rows, or the answer is too long to be counted.
    pub fn inference(&self, input: &Vec<Single>) -> (r: Option<Inference>)
        requires
            self.n_input_dim > 0,
            input.len() * 4 <= u32::MAX,
        ensures
            r is Some <==> {
                let rows = rows_of(input@.len(), self.n_input_dim);
                &&& has_rows(input@.len(), self.n_input_dim, rows)
                &&& rows * self.n_output_dim <= usize::MAX
            },
            r matches Some(asked) ==> {
                &&& asked.request@ == inference_request(input@)
                &&& asked.expected_length == rows_of(input@.len(), self.n_input_dim)
                    * self.n_output_dim
            },
    {
        if !self.is_rows(input.len(), 0, false) {
            return None;
        }
        let rows: usize = input.len() / self.n_input_dim;
        let expected_length: usize = match rows.checked_mul(self.n_output_dim) {
            Some(n) => n,
            None => {
                return None;
            },
        };
        proof {
            reveal_strlit("inference");
            assert("inference".is_ascii());
        }
        let mut request = self.write_string("inference");
        let mut inputs = self.write_data(input);
        request.append(&mut inputs);
        Some(Inference { request, expected_length })
    }

    /// What is sent when the process is no longer needed.
    pub fn exit(&self) -> (out: Vec<u8>)
        ensures
            out@ == frame("exit".spec_bytes()),
    {
        proof {
            reveal_strlit("exit");
            assert("exit".is_ascii());
        }
        self.write_string("exit")
    }
}

/// Reading undoes writing: where what is unread begins with elements as they are written, its
/// header is accepted, the elements are read back, and what followed them is left unread.
pub proof fn law_answers_are_read_back<T: Element>(data: Seq<T>, rest: Seq<u8>)
    requires
        data.len() * T::size() <= u32::MAX,
    ensures
        ({
            let unread = frame(bytes_of(data)) + rest;
            let length = le_number(unread.subrange(0, 4));
            &&& length == data.len() * T::size()
            &&& elements_of::<T>(unread.subrange(4, 4 + length), data.len()) == data
            &&& unread.skip(4 + length) == rest
        }),
{
    let sent = bytes_of(data);
    let unread = frame(sent) + rest;
    lemma_bytes_len(data);
    law_data_is_read_back(data);
    law_numbers_are_read_back(sent.len() as u32, Seq::empty());
    assert(unread.subrange(0, 4) =~= le_bytes(sent.len() as u32));
    assert(unread.subrange(4, 4 + sent.len() as int) =~= sent);
    assert(unread.skip(4 + sent.len() as int) =~= rest);
}

/// The bytes of what was sent first.
pub open spec fn first_frame(unread: Seq<u8>) -> Seq<u8> {
    unread.subrange(4, 4 + le_number(unread.subrange(0, 4)))
}

/// What was sent after that.
pub open spec fn after_frame(unread: Seq<u8>) -> Seq<u8> {
    unread.skip(4 + le_number(unread.subrange(0, 4)))
}

proof fn lemma_first_frame(sent: Seq<u8>, rest: Seq<u8>)
    requires
        sent.len() <= u32::MAX,
    ensures
        first_frame(frame(sent) + rest) == sent,
        after_frame(frame(sent) + rest) == rest,
{
    let unread = frame(sent) + rest;
    law_numbers_are_read_back(sent.len() as u32, Seq::empty());
    assert(unread.subrange(0, 4) =~= le_bytes(sent.len() as u32));
    assert(first_frame(unread) =~= sent);
    assert(after_frame(unread) =~= rest);
}

/// Whoever reads a request finds first the word that says what is asked, and then what belongs to
/// it, and nothing more: the description to make a network, the inputs and then the targets to
/// train it, the inputs to ask it.
pub proof fn law_requests_are_read_back(
    config: Seq<u8>,
    input: Seq<Single>,
    target: Seq<Single>,
)
    requires
        config.len() <= u32::MAX,
        input.len() * 4 <= u32::MAX,
        target.len() * 4 <= u32::MAX,
    ensures
        ({
            let after_init = after_frame(init_request(config));
            let after_train = after_frame(train_request(input, target));
            let after_inference = after_frame(inference_request(input));
            let targets = after_frame(after_train);
            &&& first_frame(init_request(config)) == "init".spec_bytes()
            &&& first_frame(after_init) == config
            &&& after_frame(after_init).len() == 0
            &&& first_frame(train_request(input, target)) == "train".spec_bytes()
            &&& elements_of::<Single>(first_frame(after_train), input.len()) == input
            &&& elements_of::<Single>(first_frame(targets), target.len()) == target
            &&& after_frame(targets).len() == 0
            &&& first_frame(inference_request(input)) == "inference".spec_bytes()
            &&& elements_of::<Single>(first_frame(after_inference), input.len()) == input
            &&& after_frame(after_inference).len() == 0
        }),
{
    reveal_strlit("init");
    reveal_strlit("train");
    reveal_strlit("inference");
    assert("init".is_ascii());
    assert("train".is_ascii());
    assert("inference".is_ascii());
    let (a, b) = (bytes_of(input), bytes_of(target));
    let none = Seq::<u8>::empty();
    lemma_bytes_len(input);
    lemma_bytes_len(target);
    law_data_is_read_back(input);
    law_data_is_read_back(target);
    lemma_first_frame("init".spec_bytes(), frame(config));
    lemma_first_frame(config, none);
    assert(frame(config) + none =~= frame(config));
    lemma_first_frame("train".spec_bytes(), frame(a) + frame(b));
    assert(train_request(input, target) =~= frame("train".spec_bytes()) + (frame(a) + frame(b)));
    lemma_first_frame(a, frame(b));
    lemma_first_frame(b, none);
    assert(frame(b) + none =~= frame(b));
    lemma_first_frame("inference".spec_bytes(), frame(a));
    lemma_first_frame(a, none);
    assert(frame(a) + none =~= frame(a));
}

/// The rows of inputs are counted: where there are `k` rows, the inputs are whole rows, and the
/// targets belong to them exactly where there are `k` rows of targets as well. Where inputs are
/// taken for whole rows, they are.
pub proof fn law_rows_are_counted(k: int, targets: nat, n_input_dim: usize, n_output_dim: usize)
    requires
        k >= 0,
        n_input_dim > 0,
    ensures
        ({
            let inputs = (k * n_input_dim) as nat;
            let rows = rows_of(inputs, n_input_dim);
            &&& rows == k
            &&& has_rows(inputs, n_input_dim, rows)
            &&& has_rows(targets, n_output_dim, rows) <==> targets == k * n_output_dim
            &&& forall|extra: nat| 0 < extra < n_input_dim ==> !#[trigger] has_rows(
                inputs + extra,
                n_input_dim,
                rows_of(inputs + extra, n_input_dim),
            )
        }),
{
    let d = n_input_dim as int;
    assert(k * d >= 0) by (nonlinear_arith)
        requires
            k >= 0,
            d > 0,
    ;
    let inputs = (k * d) as nat;
    vstd::arithmetic::div_mod::lemma_div_multiples_vanish(k, d);
    assert(k * d == d * k) by (nonlinear_arith);
    assert forall|extra: nat| 0 < extra < n_input_dim implies !#[trigger] has_rows(
        inputs + extra,
        n_input_dim,
        rows_of(inputs + extra, n_input_dim),
    ) by {
        let q = rows_of(inputs + extra, n_input_dim);
        assert(q * d != k * d + extra) by (nonlinear_arith)
            requires
                0 < extra < d,
        ;
    }
}

/// What a network on the device is made with, as it is handed to the library that runs it.
#[derive(Debug)]
pub struct TinyCudaNRC {
    pub is_input_cuda_buffer: bool,
    pub n_input_dims: u32,
    pub n_output_dims: u32,
    pub batch_size: u32,
    /// The description of the network, with a zero byte at its end.
    pub config: Vec<u8>,
}

impl TinyCudaNRC {
    /// What makes a network whose batches have `batch_size` rows, which is a multiple of 256. The
    /// description has no zero byte.
    pub fn new(
        is_input_cuda_buffer: bool,
        n_input_dims: usize,
        n_output_dims: usize,
        batch_size: usize,
        config: &str,
    ) -> (r: Self)
        requires
            batch_size % 256 == 0,
            forall|i: int|
                0 <= i < config.spec_bytes().len() ==> #[trigger] config.spec_bytes()[i] != 0,
        ensures
            r.is_input_cuda_buffer == is_input_cuda_buffer,
            r.n_input_dims == n_input_dims as u64 % 0x1_0000_0000,
            r.n_output_dims == n_output_dims as u64 % 0x1_0000_0000,
            r.batch_size == batch_size as u64 % 0x1_0000_0000,
            r.config@ == config.spec_bytes().push(0),
    {
        let mut bytes = config.as_bytes_vec();
        bytes.push(0);
        TinyCudaNRC {
            is_input_cuda_buffer,
            n_input_dims: (n_input_dims as u64 % 0x1_0000_0000) as u32,
            n_output_dims: (n_output_dims as u64 % 0x1_0000_0000) as u32,
            batch_size: (batch_size as u64 % 0x1_0000_0000) as u32,
            config: bytes,
        }
    }
}

} // verus!
