use bullet_trainer::device::{copy_from_device, copy_to_device, malloc, set_zero, AllocTracker};
use bullet_trainer::inputs::Feat;
use bullet_trainer::optimiser::Optimiser;
use bullet_trainer::shape::Shape;
use bullet_trainer::sparse::SparseTensor;
use bullet_trainer::tensor::{validate_dims, TensorBatch};
use bullet_trainer::trainer::{
    quantisation_scales, training_plan, BuildError, LayerOp, ParamRange, QuantiseInfo, Step, TrainerBuilder,
};
use bullet_trainer::Activation;

fn small_builder() -> TrainerBuilder {
    TrainerBuilder::new()
        .set_batch_size(16)
        .set_input(768, 32)
        .ft(32)
        .activate(Activation::SCReLU)
        .add_layer(1)
}

#[test]
fn layout_binds_views_in_order() {
    let layout = small_builder().set_quantisations(&[181, 64]).build().unwrap();
    assert_eq!(layout.ft_weights, ParamRange { start: 0, len: 32 * 768 });
    assert_eq!(layout.ft_biases, ParamRange { start: 32 * 768, len: 32 });
    assert_eq!(layout.net_size, 769 * 32 + 65);
    assert_eq!(layout.layers.len(), 2);
    assert_eq!(layout.layers[0].outputs, Shape::new(1, 64));
    assert_eq!(layout.layers[0].op, LayerOp::Activate(Activation::SCReLU));
    assert_eq!(
        layout.layers[1].op,
        LayerOp::Affine {
            weights: ParamRange { start: 24608, len: 64 },
            biases: ParamRange { start: 24672, len: 1 },
            weights_shape: Shape::new(64, 1),
        }
    );
    assert_eq!(
        layout.quantiser,
        vec![
            QuantiseInfo { val: 181, start: 0 },
            QuantiseInfo { val: 64, start: 24608 },
            QuantiseInfo { val: 181 * 64, start: 24672 },
        ]
    );
    assert_eq!(layout.batch_size, 16);
}

#[test]
fn layout_ends_at_parameter_count() {
    let b = TrainerBuilder::new().set_input(10, 4).ft(3).add_layer(5).activate(Activation::CReLU).add_layer(2);
    assert_eq!(b.size, (6 + 1) * 5 + (5 + 1) * 2);
    let layout = b.build().unwrap();
    assert_eq!(layout.net_size, 11 * 3 + 47);
    match layout.layers[2].op {
        LayerOp::Affine { biases, .. } => assert_eq!(biases.start + biases.len, layout.net_size),
        _ => panic!("last layer is affine"),
    }
    assert!(layout.quantiser.is_empty());
}

#[test]
fn layout_rejects_bad_quantisations() {
    assert_eq!(small_builder().set_quantisations(&[181]).build().err(), Some(BuildError::QuantisationCount));
    assert_eq!(
        small_builder().set_quantisations(&[300, 300]).build().err(),
        Some(BuildError::QuantisationOverflow)
    );
}

#[test]
fn quantised_export_scales() {
    let q = vec![QuantiseInfo { val: 181, start: 0 }, QuantiseInfo { val: 64, start: 3 }, QuantiseInfo { val: 11584, start: 5 }];
    assert_eq!(quantisation_scales(&q, 6), vec![181, 181, 181, 64, 64, 11584]);
    let late = vec![QuantiseInfo { val: 2, start: 2 }];
    assert_eq!(quantisation_scales(&late, 4), vec![0, 0, 2, 2]);
}

#[test]
fn training_step_order() {
    let plan = training_plan(2);
    assert_eq!(
        plan,
        vec![
            Step::ZeroGradients,
            Step::SparseForward,
            Step::LayerForward(0),
            Step::LayerForward(1),
            Step::Loss,
            Step::LayerBackward(1),
            Step::LayerBackward(0),
            Step::SparseBackward,
            Step::Update,
        ]
    );
}

#[test]
fn sparse_inputs_one_feature_each() {
    let mut inputs = SparseTensor::new(3, 3, 1);
    inputs.append(&[Feat::new(0, 0), Feat::new(1, 1), Feat::new(2, 2)]);
    assert_eq!(inputs.used(), 3);
    assert_eq!(inputs.active(0), vec![Feat::new(0, 0)]);
    assert_eq!(inputs.active(2), vec![Feat::new(2, 2)]);
    assert_eq!(inputs.affine_output_dim(Shape::new(2, 3), Shape::new(1, 2), 4), Some(2));
    assert_eq!(inputs.affine_output_dim(Shape::new(3, 2), Shape::new(1, 2), 4), None);
    inputs.clear();
    assert_eq!(inputs.used(), 0);
    assert_eq!(inputs.affine_output_dim(Shape::new(2, 3), Shape::new(1, 2), 4), None);
}

#[test]
fn sparse_records_stop_at_sentinel() {
    let mut inputs = SparseTensor::new(2, 768, 3);
    let s = 0xFFFF;
    inputs.append(&[Feat::new(5, 6), Feat::new(s, s), Feat::new(9, 9), Feat::new(1, 2), Feat::new(3, 4), Feat::new(7, 8)]);
    assert_eq!(inputs.used(), 2);
    assert_eq!(inputs.active(0), vec![Feat::new(5, 6)]);
    assert_eq!(inputs.active(1), vec![Feat::new(1, 2), Feat::new(3, 4), Feat::new(7, 8)]);
    assert_eq!(inputs.cap(), 2);
    assert_eq!(inputs.input_dim(), 768);
    assert_eq!(inputs.max_num_inputs(), 3);
}

#[test]
fn host_device_memory() {
    let mut buf = malloc(5, 1.5f32);
    assert_eq!(buf, vec![1.5; 5]);
    copy_to_device(&mut buf, 1, &[7.0, 8.0, 9.0], 2);
    assert_eq!(buf, vec![1.5, 7.0, 8.0, 1.5, 1.5]);
    set_zero(&mut buf, 2, 0.0);
    assert_eq!(buf, vec![0.0, 0.0, 8.0, 1.5, 1.5]);
    let mut out = [0.0f32; 3];
    copy_from_device(&mut out, &buf, 2, 2);
    assert_eq!(out, [8.0, 1.5, 0.0]);
    bullet_trainer::device::device_synchronise();
    bullet_trainer::device::panic_if_device_error("no error");
}

#[test]
fn allocation_ids_increase() {
    let mut t = AllocTracker::new();
    assert_eq!(t.allocated(), 1);
    assert_eq!(t.allocated(), 2);
    t.freed();
    assert_eq!(t.live, 1);
    assert_eq!(t.allocated(), 3);
}

#[test]
fn shape_sizes() {
    let mut s = Shape::new(3, 4);
    assert_eq!(s.size(), 12);
    s.reshape(2, 5);
    assert_eq!((s.cols(), s.rows(), s.size()), (2, 5, 10));
}

fn relu(x: f32) -> f32 {
    x.max(0.0)
}

fn crelu_backprop(error: f32, x: f32) -> f32 {
    if x > 0.0 && x < 1.0 {
        error
    } else {
        0.0
    }
}

#[test]
fn tensor_activate() {
    let mut xs = [1.0, -1.0, -0.5, 0.5, 1.0, 0.0, 0.0, 0.0, 1.0];

    let mut x = TensorBatch::new(Shape::new(1, 3), 3, 0.0f32);
    let mut y = TensorBatch::new(Shape::new(1, 3), 3, 0.0f32);

    x.load_from_cpu(&xs);
    TensorBatch::map(3, relu, &x, &mut y);
    y.write_to_cpu(&mut xs);

    assert_eq!(xs, [1.0, 0.0, 0.0, 0.5, 1.0, 0.0, 0.0, 0.0, 1.0]);

    TensorBatch::zip_map(3, crelu_backprop, &y, &mut x);
    x.write_to_cpu(&mut xs);

    assert_eq!(xs, [0.0, 0.0, 0.0, 0.5, 0.0, 0.0, 0.0, 0.0, 0.0]);
}

#[test]
fn tensor_splat_add() {
    let splat = vec![0.5, -1.0, 1.0];
    let vecs = [1.0, 1.0, 0.0, 1.0, 1.0, 0.0, 1.0, 1.0, 1.0, 1.5, 1.0, 1.0];

    let mut out = TensorBatch::new(Shape::new(1, 3), 7, 0.0f32);
    out.load_from_cpu(&vecs);

    TensorBatch::splat(4, |a: f32, b: f32| a + b, &splat, &mut out);

    let mut buf = [0.0; 12];
    out.write_to_cpu(&mut buf);
    assert_eq!(buf, [1.5, 0.0, 1.0, 1.5, 0.0, 1.0, 1.5, 0.0, 2.0, 2.0, 0.0, 2.0]);
}

#[test]
fn batch_transfers_and_dims() {
    let mut b = TensorBatch::new(Shape::new(1, 2), 3, 0i32);
    assert_eq!((b.cap(), b.element_size(), b.num_elements(), b.is_empty()), (3, 2, 6, false));
    b.load_from_cpu(&[4, 5, 6]);
    let mut out = [0; 4];
    b.write_to_cpu(&mut out);
    assert_eq!(out, [4, 5, 6, 0]);
    b.set(5, 9);
    assert_eq!(b.get(5), 9);
    let x = TensorBatch::new(Shape::new(1, 3), 3, 0i32);
    assert_eq!(validate_dims(Shape::new(3, 2), &x, &b), Some((3, 2)));
    assert_eq!(validate_dims(Shape::new(2, 3), &x, &b), None);
}

fn cpu_linear<const M: usize, const N: usize, const MN: usize>(a: &[f32; MN], xs: &[f32]) -> Vec<f32> {
    assert_eq!(xs.len() % M, 0);
    let mut ys = Vec::new();

    for x in xs.chunks_exact(M) {
        let mut y = [0.0; N];

        for (i, row) in a.chunks(M).enumerate() {
            for j in 0..M {
                y[i] += row[j] * x[j];
            }
        }

        for y1 in y {
            ys.push(y1);
        }
    }

    ys
}

fn mac(a: f32, x: f32, acc: f32) -> f32 {
    acc + a * x
}

#[test]
fn tensor_lt() {
    const M: usize = 3;
    const N: usize = 2;
    const MN: usize = 6;
    let a = [1.0, 1.0, 0.0, 0.0, 1.0, 1.0];
    let xs = [1.0, 0.0, 0.0, 0.0, 1.0, 0.0, 0.0, 0.0, 1.0];

    let ys_cpu = cpu_linear::<M, N, MN>(&a, &xs[..6]);

    let ys_gpu = {
        let mut xs_gpu = TensorBatch::new(Shape::new(1, M), 3, 0.0f32);
        let mut ys_gpu = TensorBatch::new(Shape::new(1, N), 3, 0.0f32);

        xs_gpu.load_from_cpu(&xs);
        TensorBatch::splat_lt_nn(2, &a.to_vec(), Shape::new(M, N), &xs_gpu, &mut ys_gpu, 0.0, mac);

        let mut ys = [0.0; N * 2];
        ys_gpu.write_to_cpu(&mut ys);

        ys
    };

    let ys = [1.0, 0.0, 1.0, 1.0, 0.0, 1.0];

    let xs = [1.0, 1.0, 0.0, 1.0, 2.0, 1.0, 0.0, 1.0, 1.0];

    let xs_gpu = {
        let mut xs_gpu = TensorBatch::new(Shape::new(1, M), 3, 0.0f32);
        let mut ys_gpu = TensorBatch::new(Shape::new(1, N), 3, 0.0f32);

        ys_gpu.load_from_cpu(&ys);

        TensorBatch::splat_lt_tn(3, &a.to_vec(), Shape::new(M, N), &ys_gpu, &mut xs_gpu, 0.0, mac);

        let mut xs = [0.0; M * 3];
        xs_gpu.write_to_cpu(&mut xs);

        xs
    };

    assert_eq!(xs, xs_gpu);
    assert_eq!(ys_cpu, ys_gpu);
}

#[test]
fn tensor_sparse_affine() {
    const M: usize = 3;
    const N: usize = 2;
    const B: usize = 3;

    let a_t = vec![1.0f32, 0.0, 1.0, 1.0, 0.0, 1.0];

    let b = vec![0.5f32, -0.5];

    let xs = [Feat::new(0, 0), Feat::new(1, 1), Feat::new(2, 2)];

    let mut inputs = SparseTensor::new(B, M, 1);
    let mut outputs = TensorBatch::new(Shape::new(1, 2 * N), B, 0.0f32);

    inputs.append(&xs);

    SparseTensor::affine(&a_t, Shape::new(N, M), &inputs, &b, Shape::new(1, N), &mut outputs, |x: f32, y: f32| x + y);

    let mut ys = [0.0; N * B * 2];
    outputs.write_to_cpu(&mut ys);

    let expected = [1.5, -0.5, 1.5, -0.5, 1.5, 0.5, 1.5, 0.5, 0.5, 0.5, 0.5, 0.5];
    assert_eq!(expected, ys);

    let mut wg = vec![0.0f32; N * M];
    let mut bg = vec![0.0f32; N];

    SparseTensor::affine_backprop(&mut wg, Shape::new(N, M), &inputs, &mut bg, Shape::new(1, N), &outputs, |x: f32, y: f32| x + y);

    let expected = vec![3.0, -1.0, 3.0, 1.0, 1.0, 1.0];
    assert_eq!(wg, expected);

    assert_eq!(bg, vec![7.0, 1.0]);
}

fn cpu_multi_linear<const M: usize, const N: usize, const MNB: usize>(a: &[f32; MNB], xs: &[f32]) -> Vec<f32> {
    assert_eq!(xs.len() % M, 0);
    let mut ys = Vec::new();
    for (x, a) in xs.chunks_exact(M).zip(a.chunks_exact(M * N)) {
        let mut y = [0.0; N];

        for (i, row) in a.chunks(M).enumerate() {
            for j in 0..M {
                y[i] += row[j] * x[j];
            }
        }

        for y1 in y {
            ys.push(y1);
        }
    }

    ys
}

#[test]
fn tensor_multi_lt() {
    const M: usize = 3;
    const N: usize = 2;
    const MN: usize = 6;
    const B: usize = 3;

    let a = [
        1.0, 1.0, 0.0, 0.0, 1.0, 1.0, 0.0, 1.0, 0.0, 1.0, 0.0, 1.0, 0.0, 1.0, 1.0, 0.0, 1.0, 0.0,
    ];
    let xs = [1.0, 0.0, 0.0, 0.0, 1.0, 0.0, 0.0, 0.0, 1.0];

    let ys_cpu = cpu_multi_linear::<M, N, { MN * B }>(&a, &xs);

    let ys_gpu = {
        let mut a_gpu = TensorBatch::new(Shape::new(M, N), B, 0.0f32);
        let mut xs_gpu = TensorBatch::new(Shape::new(1, M), B, 0.0f32);
        let mut ys_gpu = TensorBatch::new(Shape::new(1, N), B, 0.0f32);

        a_gpu.load_from_cpu(&a);
        xs_gpu.load_from_cpu(&xs);
        TensorBatch::lt_nn(B, &a_gpu, &xs_gpu, &mut ys_gpu, 0.0, mac);

        let mut ys = [0.0; N * B];
        ys_gpu.write_to_cpu(&mut ys);

        ys
    };

    assert_eq!(ys_cpu, ys_gpu);

    let ys = ys_gpu;

    let xs = [1.0, 1.0, 0.0, 0.0, 1.0, 0.0, 0.0, 1.0, 1.0];

    let xs_gpu = {
        let mut a_gpu = TensorBatch::new(Shape::new(M, N), B, 0.0f32);
        let mut xs_gpu = TensorBatch::new(Shape::new(1, M), B, 0.0f32);
        let mut ys_gpu = TensorBatch::new(Shape::new(1, N), B, 0.0f32);

        a_gpu.load_from_cpu(&a);
        ys_gpu.load_from_cpu(&ys);

        TensorBatch::lt_tn(B, &a_gpu, &ys_gpu, &mut xs_gpu, 0.0, mac);

        let mut xs = [0.0; M * B];
        xs_gpu.write_to_cpu(&mut xs);

        xs
    };

    assert_eq!(xs, xs_gpu);
}

#[test]
fn tensor_lt_nt() {
    const M: usize = 3;
    const N: usize = 2;
    const B: usize = 3;

    let x = [1.0, 0.0, 0.0, 0.0, 1.0, 0.0, 0.0, 0.0, 1.0];

    let y = [1.0, 0.0, 0.0, 1.0, 1.0, 1.0];

    let mut x_gpu = TensorBatch::new(Shape::new(1, M), B, 0.0f32);
    let mut y_gpu = TensorBatch::new(Shape::new(1, N), B, 0.0f32);
    let mut a_gpu = TensorBatch::new(Shape::new(M, N), B, 0.0f32);

    x_gpu.load_from_cpu(&x);
    y_gpu.load_from_cpu(&y);

    TensorBatch::lt_nt(B, &y_gpu, &x_gpu, &mut a_gpu, |p: f32, q: f32| p * q);

    let mut a = [0.0; M * N * B];
    a_gpu.write_to_cpu(&mut a);

    assert_eq!(
        a,
        [
            1.0, 0.0, 0.0, 0.0, 0.0, 0.0, 0.0, 0.0, 0.0, 0.0, 1.0, 0.0, 0.0, 0.0, 1.0, 0.0, 0.0,
            1.0,
        ]
    );
}

#[test]
fn tensor_reduce_add() {
    let vecs = [
        1.0, 1.0, 2.0,
        1.0, 0.0, 1.0,
        1.0, 1.0, 3.0,
        1.0, 1.0, 1.0,
    ];

    let mut inp = TensorBatch::new(Shape::new(1, 3), 7, 0.0f32);
    inp.load_from_cpu(&vecs);

    let mut out = vec![0.0f32; 3];

    TensorBatch::reduce_add(4, &inp, &mut out, |p: f32, q: f32| p + q);

    assert_eq!(out, [4.0, 3.0, 7.0]);
}

fn adamw(decay: f32, adj: f32, rate: f32) -> impl Fn(f32, f32, f32, f32) -> (f32, f32, f32) {
    let decay_gamma = 1.0 - decay * rate;
    move |w: f32, m: f32, v: f32, g: f32| {
        let g = adj * g;
        let m = 0.9 * m + (1.0 - 0.9) * g;
        let v = 0.999 * v + (1.0 - 0.999) * g * g;
        let w = decay_gamma * w - rate * m / (v.sqrt() + 0.000_000_01);
        (w.clamp(-1.98, 1.98), m, v)
    }
}

#[test]
fn zero_rate_update_keeps_parameters() {
    let mut opt = Optimiser::new(4, 0.0f32);
    opt.load_from_cpu(&[0.5, -0.25, 1.0, 0.0], &[0.1, 0.0, -0.2, 0.0], &[0.01, 0.0, 0.04, 0.0]);
    opt.set_gradients(0, &vec![1.0, 2.0, 3.0, 4.0]);
    opt.zero_gradient(0.0);
    for _ in 0..5 {
        opt.update(adamw(0.01, 2.0 / 16.0, 0.0));
    }
    let (mut w, mut m, mut v) = ([0.0f32; 4], [0.0f32; 4], [0.0f32; 4]);
    opt.write_to_cpu(&mut w, &mut m, &mut v);
    assert_eq!(w, [0.5, -0.25, 1.0, 0.0]);
    assert_eq!(opt.gradients(ParamRange { start: 0, len: 4 }), Some(vec![0.0; 4]));
}

#[test]
fn optimiser_views_are_bounds_checked() {
    let mut opt = Optimiser::new(6, 0i32);
    opt.load_from_cpu(&[1, 2, 3, 4, 5, 6], &[], &[]);
    assert_eq!(opt.weights(ParamRange { start: 2, len: 3 }), Some(vec![3, 4, 5]));
    assert_eq!(opt.weights(ParamRange { start: 4, len: 3 }), None);
    opt.set_gradients(1, &vec![7, 8]);
    assert_eq!(opt.gradients(ParamRange { start: 0, len: 4 }), Some(vec![0, 7, 8, 0]));
    opt.update(|w: i32, m: i32, v: i32, g: i32| (w - g, m + 1, v));
    assert_eq!(opt.weights(ParamRange { start: 0, len: 3 }), Some(vec![1, -5, -5]));
    assert_eq!(opt.size(), 6);
}

fn affine_forward(batch_size: usize, w: &Vec<f32>, w_shape: Shape, x: &TensorBatch<f32>, b: &Vec<f32>, y: &mut TensorBatch<f32>) {
    TensorBatch::splat_lt_nn(batch_size, w, w_shape, x, y, 0.0, mac);
    TensorBatch::splat(batch_size, |p: f32, q: f32| p + q, b, y);
}

#[allow(clippy::too_many_arguments)]
fn affine_backward(
    batch_size: usize,
    w: &Vec<f32>,
    w_shape: Shape,
    errors: &TensorBatch<f32>,
    inputs: &mut TensorBatch<f32>,
    wg: &mut Vec<f32>,
    bg: &mut Vec<f32>,
    wi: &mut TensorBatch<f32>,
) {
    TensorBatch::lt_nt(batch_size, errors, inputs, wi, |p: f32, q: f32| p * q);
    TensorBatch::reduce_add(batch_size, wi, wg, |p: f32, q: f32| p + q);
    TensorBatch::reduce_add(batch_size, errors, bg, |p: f32, q: f32| p + q);
    TensorBatch::splat_lt_tn(batch_size, w, w_shape, errors, inputs, 0.0, mac);
}

#[test]
fn affine() {
    let inps = [1.0, 2.0, -0.5];
    let ws = vec![
        1.0, 0.0, 1.0,
        0.0, 1.0, 0.0,
        1.0, 0.0, 1.0,
    ];
    let bs = vec![0.1, 0.2, 0.3];

    let mut x = TensorBatch::new(Shape::new(1, 3), 1, 0.0f32);
    let mut y = TensorBatch::new(Shape::new(1, 3), 1, 0.0f32);

    x.load_from_cpu(&inps);

    affine_forward(1, &ws, Shape::new(3, 3), &x, &bs, &mut y);

    let mut buf = [0.0; 3];
    y.write_to_cpu(&mut buf);
    assert_eq!(buf, [0.6, 2.2, 0.8]);

    let mut wg = vec![0.0f32; 9];
    let mut bg = vec![0.0f32; 3];
    let mut wi = TensorBatch::new(Shape::new(3, 3), 1, 0.0f32);

    affine_backward(1, &ws, Shape::new(3, 3), &y, &mut x, &mut wg, &mut bg, &mut wi);

    x.write_to_cpu(&mut buf);
    assert_eq!(buf, [1.4000001, 2.2, 1.4000001]);

    assert_eq!(wg, [0.6, 1.2, -0.3, 2.2, 4.4, -1.1, 0.8, 1.6, -0.4]);

    assert_eq!(bg, [0.6, 2.2, 0.8]);
}

#[test]
fn mse() {
    let out = [1.5, 0.0, 1.0];
    let res = [0.5, 0.5, 0.5];

    let mut x = TensorBatch::new(Shape::new(1, 1), 9, 0.0f32);
    x.load_from_cpu(&out);

    let mut r = TensorBatch::new(Shape::new(1, 1), 9, 0.0f32);
    r.load_from_cpu(&res);

    TensorBatch::zip_map(
        3,
        |target: f32, o: f32| {
            let sig = 1.0 / (1.0 + (-o).exp());
            (sig - target) * sig * (1.0 - sig)
        },
        &r,
        &mut x,
    );

    let mut buf = [0.0; 3];
    x.write_to_cpu(&mut buf);

    for (e, (&o, &r)) in buf.iter().zip(out.iter().zip(res.iter())) {
        let sig = 1.0 / (1.0 + (-o).exp());

        let diff = e - (sig - r) * sig * (1.0 - sig);
        assert!(diff.abs() < 0.00001);
    }
}
