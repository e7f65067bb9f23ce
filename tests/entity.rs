use softraster::entity::{Entity, EntityManager};
use softraster::tesseract::{edge_endpoints, hypercube_edges};

struct Counter {
    id: u32,
    ticks: u64,
}

impl Entity for Counter {
    type Vertex = (u32, u64);

    fn update(&mut self, dt_micros: u64) {
        self.ticks += dt_micros;
    }

    fn line_vertices(&self) -> Vec<(u32, u64)> {
        vec![(self.id, self.ticks), (self.id, self.ticks + 1)]
    }
}

struct Hypercube {
    edges: Vec<(usize, usize)>,
}

impl Entity for Hypercube {
    type Vertex = usize;

    fn update(&mut self, _dt_micros: u64) {}

    fn line_vertices(&self) -> Vec<usize> {
        edge_endpoints(&self.edges)
    }
}

#[test]
fn empty_manager_collects_nothing() {
    let m: EntityManager<Counter> = EntityManager::new();
    assert!(m.collect_all_lines().is_empty());
}

#[test]
fn lines_are_concatenated_in_insertion_order() {
    let mut m = EntityManager::new();
    m.add_entity(Counter { id: 1, ticks: 0 });
    m.add_entity(Counter { id: 2, ticks: 10 });
    assert_eq!(m.collect_all_lines(), vec![(1, 0), (1, 1), (2, 10), (2, 11)]);
}

#[test]
fn update_all_reaches_every_entity() {
    let mut m = EntityManager::new();
    m.add_entity(Counter { id: 1, ticks: 0 });
    m.add_entity(Counter { id: 2, ticks: 5 });
    m.update_all(3);
    assert_eq!(m.entities.len(), 2);
    assert_eq!(m.entities[0].ticks, 3);
    assert_eq!(m.entities[1].ticks, 8);
}

#[test]
fn one_hypercube_contributes_64_line_vertices() {
    let mut m = EntityManager::new();
    m.add_entity(Hypercube { edges: hypercube_edges() });
    let lines = m.collect_all_lines();
    assert_eq!(lines.len(), 64);
    assert_eq!(&lines[..2], &[0, 1]);
}
