use ferrite_nn::{chain_layer_sizes, check_head_pairing, check_network_shape, weight_init_for,
    ActivationKind, LayerShape, LossType, WeightInit};

#[test]
fn chained_layers_are_well_formed() {
    let rows = vec![(2, ActivationKind::Sigmoid), (1, ActivationKind::Sigmoid)];
    let layers = chain_layer_sizes(2, &rows);
    assert_eq!(layers.len(), 2);
    assert_eq!(layers[0].input_size, 2);
    assert_eq!(layers[0].size, 2);
    assert_eq!(layers[1].input_size, 2);
    assert_eq!(layers[1].size, 1);
    assert!(check_network_shape(&layers, 2));
}

#[test]
fn forward_output_width_is_last_layer_size() {
    // The XOR network: 2 inputs, a 2-neuron hidden layer, 1 output.
    let rows = vec![(2, ActivationKind::Sigmoid), (1, ActivationKind::Sigmoid)];
    let layers = chain_layer_sizes(2, &rows);
    assert!(check_network_shape(&layers, 2));
    assert_eq!(ferrite_nn::forward_output_width(&layers, 2), Some(1));
    assert_eq!(ferrite_nn::forward_output_width(&layers, 3), None);
    let three = vec![
        (8, ActivationKind::ReLU),
        (8, ActivationKind::ReLU),
        (3, ActivationKind::Softmax),
    ];
    let stack = chain_layer_sizes(4, &three);
    assert_eq!(ferrite_nn::forward_output_width(&stack, 4), Some(3));
}

#[test]
fn shape_check_rejects_mismatches() {
    assert!(!check_network_shape(&Vec::new(), 2));
    let broken = vec![
        LayerShape { size: 3, input_size: 2, activation: ActivationKind::ReLU },
        LayerShape { size: 1, input_size: 4, activation: ActivationKind::Identity },
    ];
    assert!(!check_network_shape(&broken, 2));
    let wrong_input = vec![LayerShape { size: 3, input_size: 5, activation: ActivationKind::Tanh }];
    assert!(!check_network_shape(&wrong_input, 2));
    let empty_layer = vec![LayerShape { size: 0, input_size: 2, activation: ActivationKind::Gelu }];
    assert!(!check_network_shape(&empty_layer, 2));
}

#[test]
fn softmax_pairs_only_with_cross_entropy() {
    assert!(check_head_pairing(ActivationKind::Softmax, LossType::CrossEntropy));
    assert!(!check_head_pairing(ActivationKind::Softmax, LossType::Mse));
    assert!(!check_head_pairing(ActivationKind::Sigmoid, LossType::CrossEntropy));
    assert!(check_head_pairing(ActivationKind::Sigmoid, LossType::Mse));
    assert!(check_head_pairing(ActivationKind::Identity, LossType::Huber));
    assert!(!check_head_pairing(ActivationKind::LeakyReLU, LossType::CrossEntropy));
}

#[test]
fn metadata_defaults_to_nothing() {
    let m = ferrite_nn::ModelMetadata::default();
    assert!(m.description.is_none());
    assert!(m.input_type.is_none());
    assert!(m.output_labels.is_none());
    let t = ferrite_nn::InputType::ImageGrayscale { width: 28, height: 28 };
    assert_eq!(t, ferrite_nn::InputType::ImageGrayscale { width: 28, height: 28 });
}

#[test]
fn weight_init_is_he_only_before_relu() {
    assert_eq!(weight_init_for(ActivationKind::ReLU), WeightInit::He);
    assert_eq!(weight_init_for(ActivationKind::Sigmoid), WeightInit::Xavier);
    assert_eq!(weight_init_for(ActivationKind::Softmax), WeightInit::Xavier);
    assert_eq!(weight_init_for(ActivationKind::Gelu), WeightInit::Xavier);
}
