use akari_integrator::nrc::{decode, encode, NRCProcess, TinyCudaNRC};
use akari_integrator::value::Single;

fn singles(xs: &[f32]) -> Vec<Single> {
    xs.iter().map(|x| Single { bits: x.to_bits() }).collect()
}

fn framed(data: &[u8]) -> Vec<u8> {
    let mut out = (data.len() as u32).to_le_bytes().to_vec();
    out.extend_from_slice(data);
    out
}

fn bytes(xs: &[f32]) -> Vec<u8> {
    xs.iter().flat_map(|x| x.to_le_bytes()).collect()
}

#[test]
fn strings_are_framed() {
    let p = NRCProcess::connect(2, 3);
    assert_eq!(p.write_string("exit"), vec![4, 0, 0, 0, b'e', b'x', b'i', b't']);
    assert_eq!(p.exit(), p.write_string("exit"));
    assert_eq!(p.write_string(""), vec![0, 0, 0, 0]);
    assert_eq!(p.write_data(&vec![7u8; 300])[..5], [44, 1, 0, 0, 7]);
    assert_eq!(p.write_string("h\u{e9}"), framed("h\u{e9}".as_bytes()));
}

#[test]
fn init_sends_its_configuration() {
    let p = NRCProcess::connect(2, 3);
    let mut expected = framed(b"init");
    expected.extend(framed(b"{\"a\":1}"));
    assert_eq!(p.init("{\"a\":1}"), expected);
}

#[test]
fn numbers_are_sent_low_byte_first() {
    let xs = [1.0f32, -2.5, 0.0, f32::MAX];
    assert_eq!(encode(&singles(&xs)), bytes(&xs));
    assert_eq!(decode::<Single>(&bytes(&xs), 4), singles(&xs));
    assert_eq!(encode(&Vec::<Single>::new()), Vec::<u8>::new());
    assert_eq!(encode(&vec![0x0102_0304u32]), vec![4, 3, 2, 1]);
}

#[test]
fn training_asks_for_whole_rows() {
    let p = NRCProcess::connect(2, 3);
    let input = [1.0f32, 2.0, 3.0, 4.0];
    let target = [0.1f32, 0.2, 0.3, 0.4, 0.5, 0.6];
    let mut expected = framed(b"train");
    expected.extend(framed(&bytes(&input)));
    expected.extend(framed(&bytes(&target)));
    assert_eq!(p.train(&singles(&input), &singles(&target)), Some(expected));
    assert!(p.train(&singles(&input[..3]), &singles(&target)).is_none());
    assert!(p.train(&singles(&input), &singles(&target[..5])).is_none());
    assert!(p.train(&singles(&input[..2]), &singles(&target)).is_none());
}

#[test]
fn inference_says_how_long_the_answer_is() {
    let p = NRCProcess::connect(2, 3);
    let input = [1.0f32, 2.0, 3.0, 4.0];
    let asked = p.inference(&singles(&input)).unwrap();
    let mut expected = framed(b"inference");
    expected.extend(framed(&bytes(&input)));
    assert_eq!(asked.request, expected);
    assert_eq!(asked.expected_length, 6);
    assert!(p.inference(&singles(&input[..3])).is_none());
    assert_eq!(p.inference(&vec![]).unwrap().expected_length, 0);
}

#[test]
fn answers_are_read_back() {
    let p = NRCProcess::connect(2, 3);
    let xs = [0.5f32, 0.25, -8.0];
    let sent = p.write_data(&singles(&xs));
    assert_eq!(sent, p.write_data(&bytes(&xs)));
    let header = sent[..4].to_vec();
    let body = sent[4..].to_vec();
    assert_eq!(p.read_header::<Single>(&header, 3), Some(12));
    assert_eq!(p.read_data(&header, &body, 3), Some(singles(&xs)));
    assert_eq!(p.read_header::<Single>(&header, 4), None);
    assert!(p.read_data::<Single>(&header, &body, 2).is_none());
}

#[test]
fn elements_of_every_size_are_read_back() {
    let p = NRCProcess::connect(2, 3);
    let words = vec![7u32, 0, u32::MAX, 0x0102_0304];
    let sent = p.write_data(&words);
    assert_eq!(sent.len(), 4 + 16);
    assert_eq!(p.read_header::<u32>(&sent[..4].to_vec(), 4), Some(16));
    assert_eq!(p.read_data(&sent[..4].to_vec(), &sent[4..].to_vec(), 4), Some(words));
    let letters = b"words".to_vec();
    let sent = p.write_data(&letters);
    assert_eq!(p.read_header::<u32>(&sent[..4].to_vec(), 5), None);
    assert_eq!(p.read_data(&sent[..4].to_vec(), &sent[4..].to_vec(), 5), Some(letters));
}

#[test]
fn a_network_is_made_with_a_terminated_description() {
    let nrc = TinyCudaNRC::new(true, 27, 3, 512, "{}");
    assert!(nrc.is_input_cuda_buffer);
    assert_eq!(nrc.n_input_dims, 27);
    assert_eq!(nrc.n_output_dims, 3);
    assert_eq!(nrc.batch_size, 512);
    assert_eq!(nrc.config, b"{}\0");
}
