use petri_core::{Chromosome, Real};

fn r(x: f32) -> Real {
    Real::from_millionths((x as f64 * 1_000_000.0).round() as i64)
}

fn chromosome() -> Chromosome {
    Chromosome::from_genes(vec![r(3.0), r(1.0), r(2.0)])
}

#[test]
fn len() {
    assert_eq!(chromosome().len(), 3);
}

#[test]
fn iter() {
    let chromosome = chromosome();
    let genes = chromosome.genes();

    assert_eq!(genes.len(), 3);
    assert_eq!(genes[0], r(3.0));
    assert_eq!(genes[1], r(1.0));
    assert_eq!(genes[2], r(2.0));
}

#[test]
fn iter_mut() {
    let mut chromosome = chromosome();

    for i in 0..chromosome.len() {
        let scaled = chromosome.gene(i).times(r(10.0));
        chromosome.set_gene(i, scaled);
    }

    let genes = chromosome.genes();

    assert_eq!(genes.len(), 3);
    assert_eq!(genes[0], r(30.0));
    assert_eq!(genes[1], r(10.0));
    assert_eq!(genes[2], r(20.0));
}

#[test]
fn index() {
    let chromosome = Chromosome::from_genes(vec![r(3.0), r(1.0), r(2.0)]);

    assert_eq!(chromosome.gene(0), r(3.0));
    assert_eq!(chromosome.gene(1), r(1.0));
    assert_eq!(chromosome.gene(2), r(2.0));
}

#[test]
fn from_iterator() {
    let genes: Vec<Real> = vec![r(3.0), r(1.0), r(2.0)];
    let chromosome = Chromosome::from_genes(genes);

    assert_eq!(chromosome.gene(0), r(3.0));
    assert_eq!(chromosome.gene(1), r(1.0));
    assert_eq!(chromosome.gene(2), r(2.0));
}

#[test]
fn into_iterator() {
    let chromosome = Chromosome::from_genes(vec![r(3.0), r(1.0), r(2.0)]);

    let genes: Vec<Real> = chromosome.into_genes();

    assert_eq!(genes.len(), 3);
    assert_eq!(genes[0], r(3.0));
    assert_eq!(genes[1], r(1.0));
    assert_eq!(genes[2], r(2.0));
}

#[test]
fn is_empty_on_both_kinds() {
    assert!(Chromosome::from_genes(vec![]).is_empty());
    assert!(!chromosome().is_empty());
}
