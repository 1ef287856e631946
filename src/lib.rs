//! Particle swarm optimisation: the bookkeeping of a swarm whose fitness
//! values are compared through integer order keys.
pub mod fitness;
pub mod swarm;
